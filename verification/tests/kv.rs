use spop::error::ProtocolError;
use spop::frame::{check_required, get_text, get_u32, FrameType};
use spop::frames::haproxy_disconnect::{HaproxyDisconnect, HaproxyDisconnectFrame};
use spop::frame::{FramePayload, Metadata};
use spop::kv::KvList;
use spop::types::TypedData;
use spop::SpopFrame;

#[test]
fn kv_list_keeps_order_and_replaces() {
    let mut list = KvList::new();
    assert!(list.is_empty());
    assert_eq!(list.insert("a".to_string(), TypedData::UInt32(1)), None);
    assert_eq!(list.insert("b".to_string(), TypedData::UInt32(2)), None);
    assert_eq!(
        list.insert("a".to_string(), TypedData::UInt32(3)),
        Some(TypedData::UInt32(1))
    );
    assert_eq!(list.len(), 2);
    assert!(list.contains_key("a"));
    assert!(!list.contains_key("c"));
    assert_eq!(list.get("a"), Some(&TypedData::UInt32(3)));
    assert_eq!(list.get("b"), Some(&TypedData::UInt32(2)));
    assert_eq!(list.get("c"), None);
    let keys: Vec<&str> = list.entries().iter().map(|e| e.0.as_str()).collect();
    assert_eq!(keys, vec!["a", "b"]);
    assert_eq!(list.clone(), list);
}

#[test]
fn kv_keys_are_compared_exactly() {
    let mut list = KvList::new();
    list.insert("key".to_string(), TypedData::Null);
    assert!(!list.contains_key("Key"));
    assert!(!list.contains_key("ke"));
    assert!(!list.contains_key("keys"));
    assert!(!list.contains_key(""));
    assert_eq!(list.insert("ke\u{301}y".to_string(), TypedData::Bool(true)), None);
    assert_eq!(list.len(), 2);
}

#[test]
fn required_entries_are_checked_in_order() {
    let mut list = KvList::new();
    assert_eq!(
        check_required(FrameType::AgentDisconnect, &list),
        Some(ProtocolError::MissingRequiredKey("status-code".to_string()))
    );
    list.insert("message".to_string(), TypedData::UInt32(0));
    list.insert("status-code".to_string(), TypedData::String("0".to_string()));
    assert_eq!(
        check_required(FrameType::AgentDisconnect, &list),
        Some(ProtocolError::WrongTypeForKey("status-code".to_string()))
    );
    list.insert("status-code".to_string(), TypedData::UInt32(0));
    assert_eq!(
        check_required(FrameType::HaproxyDisconnect, &list),
        Some(ProtocolError::WrongTypeForKey("message".to_string()))
    );
    assert_eq!(check_required(FrameType::Notify, &list), None);
    assert_eq!(check_required(FrameType::Ack, &list), None);
    assert_eq!(get_u32(&list, "status-code"), Ok(0));
    assert_eq!(
        get_text(&list, "message"),
        Err(ProtocolError::WrongTypeForKey("message".to_string()))
    );
    assert_eq!(
        get_text(&list, "absent"),
        Err(ProtocolError::MissingRequiredKey("absent".to_string()))
    );
}

#[test]
fn haproxy_disconnect_conversion() {
    let disconnect = HaproxyDisconnect {
        status_code: 3,
        message: "frame is too big".to_string(),
    };
    let list = disconnect.to_kv_list();
    assert_eq!(list.len(), 2);
    assert_eq!(list.get("status-code"), Some(&TypedData::UInt32(3)));
    assert_eq!(
        list.get("message"),
        Some(&TypedData::String("frame is too big".to_string()))
    );
    assert_eq!(
        HaproxyDisconnect::try_from(FramePayload::KVList(list)),
        Ok(disconnect.clone())
    );
    assert_eq!(
        HaproxyDisconnect::try_from(FramePayload::ListOfMessages(vec![])),
        Err(ProtocolError::PayloadMismatch)
    );
    assert_eq!(
        HaproxyDisconnect::try_from(FramePayload::KVList(KvList::new())),
        Err(ProtocolError::MissingRequiredKey("status-code".to_string()))
    );
    let frame = HaproxyDisconnectFrame {
        metadata: Metadata::default(),
        payload: disconnect,
    };
    assert_eq!(frame.frame_type(), &FrameType::HaproxyDisconnect);
    assert_eq!(frame.metadata(), Metadata::default());
    assert_eq!(
        frame.payload(),
        FramePayload::KVList(frame.payload.to_kv_list())
    );
}

#[test]
fn kv_lists_are_equal_whatever_the_order() {
    let mut forward = KvList::new();
    forward.insert("a".to_string(), TypedData::UInt32(1));
    forward.insert("b".to_string(), TypedData::String("x".to_string()));
    let mut backward = KvList::new();
    backward.insert("b".to_string(), TypedData::String("x".to_string()));
    backward.insert("a".to_string(), TypedData::UInt32(1));
    assert_eq!(forward, backward);
    assert!(forward.is_within(&backward));

    let mut other_value = KvList::new();
    other_value.insert("a".to_string(), TypedData::UInt32(2));
    other_value.insert("b".to_string(), TypedData::String("x".to_string()));
    assert_ne!(forward, other_value);

    let mut smaller = KvList::new();
    smaller.insert("a".to_string(), TypedData::UInt32(1));
    assert_ne!(forward, smaller);
    assert_ne!(smaller, forward);
    assert!(smaller.is_within(&forward));
    assert!(!forward.is_within(&smaller));
    assert_eq!(KvList::new(), KvList::new());
}

#[test]
fn typed_values_are_compared_by_content() {
    let values = [
        TypedData::Null,
        TypedData::Bool(true),
        TypedData::Bool(false),
        TypedData::Int32(1),
        TypedData::UInt32(1),
        TypedData::Int64(1),
        TypedData::UInt64(1),
        TypedData::IPv4([1, 2, 3, 4]),
        TypedData::IPv4([1, 2, 3, 5]),
        TypedData::IPv6([0; 16]),
        TypedData::String("a".to_string()),
        TypedData::String("b".to_string()),
        TypedData::Binary(vec![b'a']),
        TypedData::Binary(vec![]),
    ];
    for (i, a) in values.iter().enumerate() {
        for (j, b) in values.iter().enumerate() {
            assert_eq!(a.same_as(b), i == j, "{:?} and {:?}", a, b);
            assert_eq!(a == b, i == j);
        }
    }
}
