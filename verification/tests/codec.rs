use bytes::BytesMut;
use spop::codec::SpopCodec;
use spop::error::ProtocolError;
use spop::frame::{FramePayload, FrameType};
use spop::frames::ack::Ack;
use spop::frames::agent_disconnect::AgentDisconnect;
use spop::actions::VarScope;
use spop::types::TypedData;

fn ack(frame_id: u64) -> spop::frame::Frame {
    Ack::new(7, frame_id)
        .set_var(VarScope::Session, "x", TypedData::UInt32(42))
        .to_frame()
}

#[test]
fn codec_encodes_then_decodes() {
    let codec = SpopCodec::new();
    let mut buffer = BytesMut::new();
    codec.encode(&ack(1), &mut buffer).unwrap();
    codec.encode(&ack(2), &mut buffer).unwrap();
    let one = ack(1).serialize().unwrap();
    assert_eq!(buffer.len(), 2 * one.len());
    assert_eq!(&buffer[..one.len()], &one[..]);

    let first = codec.decode(&mut buffer).unwrap().unwrap();
    assert_eq!(first, ack(1));
    assert_eq!(buffer.len(), one.len());
    let second = codec.decode(&mut buffer).unwrap().unwrap();
    assert_eq!(second, ack(2));
    assert!(buffer.is_empty());
    assert_eq!(codec.decode(&mut buffer), Ok(None));
}

#[test]
fn partial_frame_is_left_in_the_buffer() {
    let codec = SpopCodec::new();
    let bytes = ack(1).serialize().unwrap();
    for cut in 0..bytes.len() {
        let mut buffer = BytesMut::from(&bytes[..cut]);
        assert_eq!(codec.decode(&mut buffer), Ok(None));
        assert_eq!(&buffer[..], &bytes[..cut]);
        buffer.extend_from_slice(&bytes[cut..]);
        assert_eq!(codec.decode(&mut buffer), Ok(Some(ack(1))));
        assert!(buffer.is_empty());
    }
}

#[test]
fn decode_takes_one_frame_at_a_time() {
    let codec = SpopCodec::new();
    let mut buffer = BytesMut::new();
    buffer.extend_from_slice(&ack(1).serialize().unwrap());
    buffer.extend_from_slice(&[0, 0]);
    assert_eq!(codec.decode(&mut buffer), Ok(Some(ack(1))));
    assert_eq!(&buffer[..], &[0, 0]);
    assert_eq!(codec.decode(&mut buffer), Ok(None));
    assert_eq!(&buffer[..], &[0, 0]);
}

#[test]
fn abort_frame_is_discarded_and_reported() {
    let codec = SpopCodec::new();
    let mut bytes = ack(1).serialize().unwrap();
    bytes[8] = 3;
    let mut buffer = BytesMut::from(&bytes[..]);
    buffer.extend_from_slice(&ack(2).serialize().unwrap());
    assert_eq!(
        codec.decode(&mut buffer),
        Err(ProtocolError::AbortRequested {
            stream_id: 7,
            frame_id: 1
        })
    );
    assert_eq!(codec.decode(&mut buffer), Ok(Some(ack(2))));
    assert!(buffer.is_empty());
}

#[test]
fn other_errors_leave_the_buffer() {
    let codec = SpopCodec::new();
    let bad = [0u8, 0, 0, 1, 77, 9, 9];
    let mut buffer = BytesMut::from(&bad[..]);
    assert_eq!(
        codec.decode(&mut buffer),
        Err(ProtocolError::UnknownFrameType(77))
    );
    assert_eq!(&buffer[..], &bad[..]);
}

#[test]
fn codec_enforces_its_frame_size() {
    let bytes = ack(1).serialize().unwrap();
    let body = (bytes.len() - 4) as u32;
    let tight = SpopCodec::with_max_frame_size(body - 1);
    let mut buffer = BytesMut::from(&bytes[..4]);
    assert_eq!(tight.decode(&mut buffer), Err(ProtocolError::FrameTooLarge));
    assert_eq!(buffer.len(), 4);
    let mut out = BytesMut::from(&b"kept"[..]);
    assert_eq!(tight.encode(&ack(1), &mut out), Err(ProtocolError::FrameTooLarge));
    assert_eq!(&out[..], b"kept");

    let exact = SpopCodec::with_max_frame_size(body);
    assert_eq!(exact.max_frame_size, body);
    assert_eq!(exact.encode(&ack(1), &mut out), Ok(()));
    assert_eq!(&out[..4], b"kept");
    assert_eq!(&out[4..], &bytes[..]);
    let mut buffer = BytesMut::from(&bytes[..]);
    assert_eq!(exact.decode(&mut buffer), Ok(Some(ack(1))));
    assert_eq!(SpopCodec::new().max_frame_size, u32::MAX);
}

#[test]
fn codec_carries_every_frame_kind() {
    let codec = SpopCodec::new();
    let mut buffer = BytesMut::new();
    let frame = AgentDisconnect {
        status_code: 4,
        message: "invalid frame received".to_string(),
    }
    .to_frame();
    codec.encode(&frame, &mut buffer).unwrap();
    let back = codec.decode(&mut buffer).unwrap().unwrap();
    assert_eq!(back.frame_type(), &FrameType::AgentDisconnect);
    match back.payload() {
        FramePayload::KVList(list) => {
            assert_eq!(list.get("status-code"), Some(&TypedData::UInt32(4)));
        }
        _ => panic!("Wrong type of payload"),
    }
}
