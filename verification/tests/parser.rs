use spop::actions::{Action, VarScope};
use spop::error::ProtocolError;
use spop::frame::{FramePayload, FrameType};
use spop::parser::{
    parse_frame, parse_frame_within, parse_key_value_pair, parse_key_value_pairs,
    parse_list_of_actions, parse_list_of_messages, parse_string,
};
use spop::types::TypedData;

const HAPROXY_HELLO: &[u8] = &[
    0x00, 0x00, 0x00, 0x4e, // FRAME-LENGTH = 78 bytes
    0x01,                   // FRAME-TYPE = HAPROXY-HELLO
    0x00, 0x00, 0x00, 0x01, // FLAGS = FIN
    0x00,                   // STREAM-ID = 0
    0x00,                   // FRAME-ID = 0
    // FRAME-PAYLOAD
    0x12,
        // "supported-versions"
        0x73, 0x75, 0x70, 0x70, 0x6f, 0x72, 0x74, 0x65,
        0x64, 0x2d, 0x76, 0x65, 0x72, 0x73, 0x69, 0x6f,
        0x6e, 0x73,
    0x08, 0x03, // TYPE=STRING, len = 3
        0x32, 0x2e, 0x30, // 2.0
    0x0e,
        // "max-frame-size"
        0x6d, 0x61, 0x78, 0x2d, 0x66, 0x72, 0x61, 0x6d,
        0x65, 0x2d, 0x73, 0x69, 0x7a, 0x65,
    0x03, // TYPE=UINT32,
        0xfc, 0xf0, 0x06,
    0x0c,
        // "capabilities"
        0x63, 0x61, 0x70, 0x61, 0x62, 0x69, 0x6c, 0x69,
        0x74, 0x69, 0x65, 0x73,
    0x08, 0x00, // TYPE=STRING, null
    0x0b,
        // "healthcheck"
        0x68, 0x65, 0x61, 0x6c, 0x74, 0x68, 0x63, 0x68,
        0x65, 0x63, 0x6b,
    0x11, // TYPE=BOOLEAN, true
];

/// A frame with the given body.
fn framed(body: &[u8]) -> Vec<u8> {
    let mut out = (body.len() as u32).to_be_bytes().to_vec();
    out.extend_from_slice(body);
    out
}

/// The body of a frame: type, flags, both identifiers below 240, payload.
fn body(frame_type: u8, flags: u32, stream_id: u8, frame_id: u8, payload: &[u8]) -> Vec<u8> {
    let mut out = vec![frame_type];
    out.extend_from_slice(&flags.to_be_bytes());
    out.push(stream_id);
    out.push(frame_id);
    out.extend_from_slice(payload);
    out
}

fn pair(key: &str, value: &[u8]) -> Vec<u8> {
    let mut out = vec![key.len() as u8];
    out.extend_from_slice(key.as_bytes());
    out.extend_from_slice(value);
    out
}

fn disconnect_payload() -> Vec<u8> {
    let mut payload = pair("status-code", &[0x03, 0x00]);
    payload.extend_from_slice(&pair("message", &[0x08, 0x02, b'o', b'k']));
    payload
}

#[test]
fn test_parse_haproxy_hello() {
    let (_, frame) = parse_frame(HAPROXY_HELLO).expect("Parses correctly");
    assert_eq!(frame.frame_type(), &FrameType::HaproxyHello);
    assert!(frame.metadata().flags.is_fin());
    assert!(!frame.metadata().flags.is_abort());
    assert_eq!(frame.metadata().stream_id, 0);
    assert_eq!(frame.metadata().frame_id, 0);

    match frame.payload() {
        FramePayload::KVList(kv_list) => {
            let data = kv_list
                .get("supported-versions")
                .expect("Has supported versions");
            assert_eq!(data, &TypedData::String("2.0".to_string()));

            let data = kv_list.get("max-frame-size").expect("Has max frame size");
            assert_eq!(data, &TypedData::UInt32(16380));

            let data = kv_list.get("capabilities").expect("Has capabilities");
            assert_eq!(data, &TypedData::String("".to_string()));

            let data = kv_list.get("healthcheck").expect("Has healthcheck");
            assert_eq!(data, &TypedData::Bool(true));
        }
        _ => {
            panic!("Wrong type of payload");
        }
    }
}

#[test]
fn hello_takes_exactly_its_bytes() {
    let mut input = HAPROXY_HELLO.to_vec();
    input.extend_from_slice(&[0xde, 0xad]);
    let (rest, frame) = parse_frame(&input).unwrap();
    assert_eq!(rest, &[0xde, 0xad]);
    assert_eq!(input.len() - rest.len(), 4 + 0x4e);
    match frame.payload_ref() {
        FramePayload::KVList(list) => assert_eq!(list.len(), 4),
        _ => panic!("Wrong type of payload"),
    }
}

#[test]
fn every_proper_prefix_needs_more() {
    for cut in 0..HAPROXY_HELLO.len() {
        assert_eq!(
            parse_frame(&HAPROXY_HELLO[..cut]),
            Err(ProtocolError::NeedMore),
            "prefix of {} bytes",
            cut
        );
    }
}

#[test]
fn oversized_frame_is_refused_on_sight() {
    assert_eq!(
        parse_frame_within(&HAPROXY_HELLO[..4], 77),
        Err(ProtocolError::FrameTooLarge)
    );
    assert_eq!(
        parse_frame_within(HAPROXY_HELLO, 77),
        Err(ProtocolError::FrameTooLarge)
    );
    assert!(parse_frame_within(HAPROXY_HELLO, 78).is_ok());
}

#[test]
fn rejects_unknown_frame_type() {
    for t in [0u8, 4, 100, 104, 255] {
        let input = framed(&body(t, 1, 0, 0, &[]));
        assert_eq!(parse_frame(&input), Err(ProtocolError::UnknownFrameType(t)));
    }
    // The type is looked at before anything else in the body.
    assert_eq!(
        parse_frame(&framed(&[9])),
        Err(ProtocolError::UnknownFrameType(9))
    );
}

#[test]
fn rejects_missing_fin() {
    let input = framed(&body(3, 0, 1, 1, &[]));
    assert_eq!(parse_frame(&input), Err(ProtocolError::InvalidFlags));
    let input = framed(&body(3, 2, 1, 1, &[]));
    assert_eq!(parse_frame(&input), Err(ProtocolError::InvalidFlags));
}

#[test]
fn rejects_reserved_bits() {
    for flags in [0x5u32, 0x8000_0001, 0x0000_0101, 0xffff_ffff] {
        let input = framed(&body(3, flags, 1, 1, &[]));
        assert_eq!(parse_frame(&input), Err(ProtocolError::InvalidFlags));
    }
}

#[test]
fn abort_is_surfaced_with_the_identifiers() {
    let input = framed(&body(3, 3, 7, 2, &[0xff, 0xff]));
    assert_eq!(
        parse_frame(&input),
        Err(ProtocolError::AbortRequested {
            stream_id: 7,
            frame_id: 2
        })
    );
}

#[test]
fn rejects_short_bodies() {
    assert_eq!(parse_frame(&framed(&[])), Err(ProtocolError::Truncated));
    assert_eq!(parse_frame(&framed(&[3])), Err(ProtocolError::Truncated));
    assert_eq!(
        parse_frame(&framed(&[3, 0, 0, 0])),
        Err(ProtocolError::Truncated)
    );
    assert_eq!(
        parse_frame(&framed(&[3, 0, 0, 0, 1])),
        Err(ProtocolError::Truncated)
    );
    assert_eq!(
        parse_frame(&framed(&[3, 0, 0, 0, 1, 0])),
        Err(ProtocolError::Truncated)
    );
    assert_eq!(
        parse_frame(&framed(&[3, 0, 0, 0, 1, 0xf0, 0x80])),
        Err(ProtocolError::Truncated)
    );
}

#[test]
fn rejects_non_zero_ids_on_hello_and_disconnect() {
    for t in [1u8, 2, 101, 102] {
        let input = framed(&body(t, 1, 0, 1, &disconnect_payload()));
        assert_eq!(parse_frame(&input), Err(ProtocolError::NonZeroIds));
        let input = framed(&body(t, 1, 1, 0, &disconnect_payload()));
        assert_eq!(parse_frame(&input), Err(ProtocolError::NonZeroIds));
    }
}

#[test]
fn rejects_duplicate_keys() {
    let mut payload = disconnect_payload();
    payload.extend_from_slice(&pair("message", &[0x00]));
    let input = framed(&body(2, 1, 0, 0, &payload));
    assert_eq!(
        parse_frame(&input),
        Err(ProtocolError::DuplicateKey("message".to_string()))
    );

    let mut message = vec![1, b'm', 2];
    message.extend_from_slice(&pair("a", &[0x00]));
    message.extend_from_slice(&pair("a", &[0x11]));
    let input = framed(&body(3, 1, 1, 1, &message));
    assert_eq!(
        parse_frame(&input),
        Err(ProtocolError::DuplicateKey("a".to_string()))
    );
}

#[test]
fn rejects_missing_and_mistyped_required_keys() {
    let input = framed(&body(2, 1, 0, 0, &[]));
    assert_eq!(
        parse_frame(&input),
        Err(ProtocolError::MissingRequiredKey("status-code".to_string()))
    );
    let input = framed(&body(102, 1, 0, 0, &pair("status-code", &[0x03, 0x00])));
    assert_eq!(
        parse_frame(&input),
        Err(ProtocolError::MissingRequiredKey("message".to_string()))
    );
    let input = framed(&body(2, 1, 0, 0, &pair("status-code", &[0x02, 0x00])));
    assert_eq!(
        parse_frame(&input),
        Err(ProtocolError::WrongTypeForKey("status-code".to_string()))
    );
    let input = framed(&body(1, 1, 0, 0, &disconnect_payload()));
    assert_eq!(
        parse_frame(&input),
        Err(ProtocolError::MissingRequiredKey(
            "supported-versions".to_string()
        ))
    );
    let input = framed(&body(101, 1, 0, 0, &disconnect_payload()));
    assert_eq!(
        parse_frame(&input),
        Err(ProtocolError::MissingRequiredKey("version".to_string()))
    );
}

#[test]
fn rejects_action_argument_mismatch() {
    let set_var_two_args = [1u8, 2, 1, 1, b'x', 0x00];
    let input = framed(&body(103, 1, 7, 1, &set_var_two_args));
    assert_eq!(
        parse_frame(&input),
        Err(ProtocolError::ActionArgCount {
            action_type: 1,
            nb_args: 2
        })
    );
    let unset_var_three_args = [2u8, 3, 1, 1, b'x'];
    let input = framed(&body(103, 1, 7, 1, &unset_var_three_args));
    assert_eq!(
        parse_frame(&input),
        Err(ProtocolError::ActionArgCount {
            action_type: 2,
            nb_args: 3
        })
    );
    // Also after a well-formed action.
    let mut payload = vec![2u8, 2, 4, 1, b'y'];
    payload.extend_from_slice(&set_var_two_args);
    let input = framed(&body(103, 1, 7, 1, &payload));
    assert_eq!(
        parse_frame(&input),
        Err(ProtocolError::ActionArgCount {
            action_type: 1,
            nb_args: 2
        })
    );
}

#[test]
fn rejects_unknown_action_type_and_scope() {
    assert_eq!(
        parse_list_of_actions(&[3, 2, 0, 1, b'x']),
        Err(ProtocolError::UnknownActionType(3))
    );
    assert_eq!(
        parse_list_of_actions(&[0]),
        Err(ProtocolError::UnknownActionType(0))
    );
    assert_eq!(
        parse_list_of_actions(&[2, 2, 5, 1, b'x']),
        Err(ProtocolError::UnknownScope(5))
    );
    assert_eq!(parse_list_of_actions(&[1]), Err(ProtocolError::Truncated));
    assert_eq!(parse_list_of_actions(&[1, 3]), Err(ProtocolError::Truncated));
    assert_eq!(
        parse_list_of_actions(&[1, 3, 0, 1, b'x']),
        Err(ProtocolError::Truncated)
    );
}

#[test]
fn parses_actions() {
    let input = [
        1u8, 3, 1, 1, b'x', 0x03, 42, // set-var sess x = UInt32(42)
        2, 2, 4, 2, b'y', b'z', // unset-var res yz
    ];
    let (rest, actions) = parse_list_of_actions(&input).unwrap();
    assert!(rest.is_empty());
    assert_eq!(
        actions,
        vec![
            Action::SetVar {
                scope: VarScope::Session,
                name: "x".to_string(),
                value: TypedData::UInt32(42)
            },
            Action::UnSetVar {
                scope: VarScope::Response,
                name: "yz".to_string()
            },
        ]
    );
    let (_, none) = parse_list_of_actions(&[]).unwrap();
    assert!(none.is_empty());
}

#[test]
fn parses_messages() {
    let mut input = vec![5, b's', b'c', b'o', b'r', b'e', 0];
    input.extend_from_slice(&[3, b'l', b'o', b'g', 2]);
    input.extend_from_slice(&pair("ip", &[0x06, 10, 0, 0, 1]));
    input.extend_from_slice(&pair("n", &[0x03, 7]));
    let (rest, messages) = parse_list_of_messages(&input).unwrap();
    assert!(rest.is_empty());
    assert_eq!(messages.len(), 2);
    assert_eq!(messages[0].name, "score");
    assert!(messages[0].args.is_empty());
    assert_eq!(messages[1].name, "log");
    assert_eq!(messages[1].args.len(), 2);
    assert_eq!(
        messages[1].args.get("ip"),
        Some(&TypedData::IPv4([10, 0, 0, 1]))
    );
    assert_eq!(messages[1].args.get("n"), Some(&TypedData::UInt32(7)));

    let (_, none) = parse_list_of_messages(&[]).unwrap();
    assert!(none.is_empty());

    // A message that announces more arguments than follow.
    assert_eq!(
        parse_list_of_messages(&[1, b'm', 1]),
        Err(ProtocolError::Truncated)
    );
    // A message without its argument count.
    assert_eq!(
        parse_list_of_messages(&[1, b'm']),
        Err(ProtocolError::Truncated)
    );
}

#[test]
fn empty_payloads_are_accepted() {
    let (_, frame) = parse_frame(&framed(&body(3, 1, 9, 9, &[]))).unwrap();
    assert_eq!(frame.payload(), FramePayload::ListOfMessages(vec![]));
    let (_, frame) = parse_frame(&framed(&body(103, 1, 9, 9, &[]))).unwrap();
    assert_eq!(frame.payload(), FramePayload::ListOfActions(vec![]));
    let (_, payload) = parse_key_value_pairs(&[]).unwrap();
    match payload {
        FramePayload::KVList(list) => assert!(list.is_empty()),
        _ => panic!("Wrong type of payload"),
    }
}

#[test]
fn names_must_be_utf8() {
    assert_eq!(parse_string(&[2, 0xc3, 0x28]), Err(ProtocolError::InvalidUtf8));
    assert_eq!(
        parse_key_value_pair(&[1, 0xff, 0x00]),
        Err(ProtocolError::InvalidUtf8)
    );
    let (rest, name) = parse_string(&[2, 0xc3, 0xa9, 0x00]).unwrap();
    assert_eq!(name, "é");
    assert_eq!(rest, &[0x00]);
    assert_eq!(parse_string(&[3, b'a']), Err(ProtocolError::Truncated));
    assert_eq!(parse_string(&[]), Err(ProtocolError::Truncated));
}

#[test]
fn pair_is_name_then_value() {
    let input = pair("key", &[0x08, 0x01, b'v', 0x99]);
    let (rest, (key, value)) = parse_key_value_pair(&input).unwrap();
    assert_eq!(key, "key");
    assert_eq!(value, TypedData::String("v".to_string()));
    assert_eq!(rest, &[0x99]);
    assert_eq!(
        parse_key_value_pair(&[3, b'k', b'e', b'y']),
        Err(ProtocolError::Truncated)
    );
    assert_eq!(
        parse_key_value_pair(&[1, b'k', 0x0c]),
        Err(ProtocolError::UnknownValueType(12))
    );
}
