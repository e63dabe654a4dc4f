use spop::error::ProtocolError;
use spop::frame::{FramePayload, FrameType, Metadata};
use spop::frames::capabilities::FrameCapabilities;
use spop::frames::haproxy_hello::{HaproxyHello, HaproxyHelloFrame};
use spop::frames::version::Version;
use spop::kv::KvList;
use spop::types::TypedData;
use spop::SpopFrame;

fn hello_list() -> KvList {
    let mut kv_list = KvList::new();
    kv_list.insert(
        "supported-versions".to_string(),
        TypedData::String("2.0, 1.5".to_string()),
    );
    kv_list.insert("max-frame-size".to_string(), TypedData::UInt32(1024));
    kv_list.insert(
        "capabilities".to_string(),
        TypedData::String("pipelining".to_string()),
    );
    kv_list.insert("healthcheck".to_string(), TypedData::Bool(true));
    kv_list.insert(
        "engine-id".to_string(),
        TypedData::String("engine-123".to_string()),
    );
    kv_list
}

#[test]
fn test_haproxy_hello_frame() {
    let payload = HaproxyHello {
        supported_versions: vec![Version::new(2, 0, 0), Version::new(1, 5, 0)],
        max_frame_size: 1024,
        capabilities: vec![FrameCapabilities::from_str("pipelining").unwrap()],
        healthcheck: Some(true),
        engine_id: Some("engine-123".to_string()),
    };

    let frame = HaproxyHelloFrame {
        metadata: Metadata::default(),
        payload,
    };

    assert_eq!(frame.frame_type(), &FrameType::HaproxyHello);
    assert_eq!(frame.metadata().stream_id, 0);
    assert_eq!(frame.metadata().frame_id, 0);
    assert_eq!(frame.metadata().flags.is_fin(), false);
    assert_eq!(
        frame.payload.supported_versions,
        vec![Version::new(2, 0, 0), Version::new(1, 5, 0)]
    );
    assert_eq!(frame.payload.max_frame_size, 1024);
    assert_eq!(
        frame.payload.capabilities,
        vec![FrameCapabilities::from_str("pipelining").unwrap()]
    );
    assert_eq!(frame.payload.healthcheck, Some(true));
    assert_eq!(frame.payload.engine_id, Some("engine-123".to_string()));
}

#[test]
fn test_haproxy_hello_frame_conversion() {
    let payload = FramePayload::KVList(hello_list());
    let haproxy_hello: HaproxyHello = HaproxyHello::try_from(payload).unwrap();

    assert_eq!(
        haproxy_hello.supported_versions,
        vec![Version::new(2, 0, 0), Version::new(1, 5, 0)]
    );
    assert_eq!(haproxy_hello.max_frame_size, 1024);
    assert_eq!(
        haproxy_hello.capabilities,
        vec![FrameCapabilities::from_str("pipelining").unwrap()]
    );
    assert_eq!(haproxy_hello.healthcheck, Some(true));
    assert_eq!(haproxy_hello.engine_id, Some("engine-123".to_string()));
}

#[test]
fn hello_to_kv_list_writes_versions_without_patch() {
    let hello = HaproxyHello {
        supported_versions: vec![Version::new(2, 0, 7), Version::new(1, 15, 0)],
        max_frame_size: 16380,
        capabilities: vec![FrameCapabilities::Pipelining],
        healthcheck: None,
        engine_id: Some("e".to_string()),
    };
    let list = hello.to_kv_list();
    assert_eq!(list.len(), 4);
    assert_eq!(
        list.get("supported-versions"),
        Some(&TypedData::String("2.0, 1.15".to_string()))
    );
    assert_eq!(list.get("max-frame-size"), Some(&TypedData::UInt32(16380)));
    assert_eq!(
        list.get("capabilities"),
        Some(&TypedData::String("pipelining".to_string()))
    );
    assert_eq!(list.get("healthcheck"), None);
    assert_eq!(list.get("engine-id"), Some(&TypedData::String("e".to_string())));
}

#[test]
fn hello_conversion_round_trips_through_kv_list() {
    let hello = HaproxyHello {
        supported_versions: vec![Version::new(2, 0, 0)],
        max_frame_size: 4096,
        capabilities: vec![],
        healthcheck: Some(false),
        engine_id: None,
    };
    let back = HaproxyHello::try_from(FramePayload::KVList(hello.to_kv_list())).unwrap();
    assert_eq!(back, hello);
}

#[test]
fn hello_conversion_reports_what_is_missing() {
    let mut list = KvList::new();
    assert_eq!(
        HaproxyHello::try_from(FramePayload::KVList(list.clone())),
        Err(ProtocolError::MissingRequiredKey(
            "supported-versions".to_string()
        ))
    );
    list.insert(
        "supported-versions".to_string(),
        TypedData::String("2.0".to_string()),
    );
    list.insert("max-frame-size".to_string(), TypedData::Int32(1024));
    assert_eq!(
        HaproxyHello::try_from(FramePayload::KVList(list.clone())),
        Err(ProtocolError::WrongTypeForKey("max-frame-size".to_string()))
    );
    list.insert("max-frame-size".to_string(), TypedData::UInt32(1024));
    assert_eq!(
        HaproxyHello::try_from(FramePayload::KVList(list.clone())),
        Err(ProtocolError::MissingRequiredKey("capabilities".to_string()))
    );
    assert_eq!(
        HaproxyHello::try_from(FramePayload::ListOfActions(vec![])),
        Err(ProtocolError::PayloadMismatch)
    );
}

#[test]
fn hello_conversion_rejects_a_bad_version() {
    let mut list = hello_list();
    list.insert(
        "supported-versions".to_string(),
        TypedData::String("2.0, two".to_string()),
    );
    assert_eq!(
        HaproxyHello::try_from(FramePayload::KVList(list)),
        Err(ProtocolError::InvalidVersion("two".to_string()))
    );
}

#[test]
fn hello_conversion_ignores_optional_entries_of_the_wrong_type() {
    let mut list = hello_list();
    list.insert("healthcheck".to_string(), TypedData::UInt32(1));
    list.insert("engine-id".to_string(), TypedData::Null);
    let hello = HaproxyHello::try_from(FramePayload::KVList(list)).unwrap();
    assert_eq!(hello.healthcheck, None);
    assert_eq!(hello.engine_id, None);
}
