use spop::error::ProtocolError;
use spop::frame::{FrameFlags, FrameType};

#[test]
fn test_frame_type_from_u8() {
    assert_eq!(FrameType::from_u8(0), Err(ProtocolError::UnknownFrameType(0)));
    assert_eq!(FrameType::from_u8(1), Ok(FrameType::HaproxyHello));
    assert_eq!(FrameType::from_u8(2), Ok(FrameType::HaproxyDisconnect));
    assert_eq!(FrameType::from_u8(3), Ok(FrameType::Notify));
    assert_eq!(FrameType::from_u8(101), Ok(FrameType::AgentHello));
    assert_eq!(FrameType::from_u8(102), Ok(FrameType::AgentDisconnect));
    assert_eq!(FrameType::from_u8(103), Ok(FrameType::Ack));
}

#[test]
fn test_frame_type_to_u8() {
    assert_eq!(FrameType::HaproxyHello.to_u8(), 1);
    assert_eq!(FrameType::HaproxyDisconnect.to_u8(), 2);
    assert_eq!(FrameType::Notify.to_u8(), 3);
    assert_eq!(FrameType::AgentHello.to_u8(), 101);
    assert_eq!(FrameType::AgentDisconnect.to_u8(), 102);
    assert_eq!(FrameType::Ack.to_u8(), 103);
}

#[test]
fn test_frameflags() {
    let flags = FrameFlags(0x00000001);
    assert_eq!(flags.is_fin(), true);

    let flags = FrameFlags(0x00000000);
    assert_eq!(flags.is_fin(), false);

    let flags = FrameFlags(0x00000002);
    assert_eq!(flags.is_abort(), true);

    let flags = FrameFlags(0x00000003);
    assert_eq!(flags.is_fin(), true);
    assert_eq!(flags.is_abort(), true);
}

#[test]
fn test_frameflags_new() {
    let flags = FrameFlags::new(true, false);
    assert_eq!(flags.0, 0x00000001);

    let flags = FrameFlags::new(false, true);
    assert_eq!(flags.0, 0x00000002);

    let flags = FrameFlags::new(true, true);
    assert_eq!(flags.0, 0x00000003);
}
