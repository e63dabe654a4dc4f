//! HAPROXY-DISCONNECT: the load balancer says why it closes the connection.

use vstd::prelude::*;
use vstd::string::StringExecFns;
use crate::error::{ErrorView, ProtocolError};
use crate::frame::{
    get_text, get_u32, spec_check_required, FramePayload, FrameType, Metadata, PayloadView,
};
use crate::kv::{lemma_insert_new, spec_get, KvList, KvView};
use crate::types::{TypedData, TypedDataView};
use crate::SpopFrame;

verus! {

/// The status code and message of a disconnect frame.
#[derive(Debug, Clone, PartialEq, Eq)]
pub struct HaproxyDisconnect {
    pub status_code: u32,
    pub message: String,
}

/// Mathematical counterpart of a disconnect record, of either direction.
pub struct DisconnectView {
    pub status_code: u32,
    pub message: Seq<char>,
}

impl View for HaproxyDisconnect {
    type V = DisconnectView;

    open spec fn view(&self) -> DisconnectView {
        DisconnectView { status_code: self.status_code, message: self.message@ }
    }
}

/// The key/value list of a disconnect frame.
pub open spec fn spec_disconnect_kv(d: DisconnectView) -> KvView {
    seq![
        ("status-code"@, TypedDataView::UInt32(d.status_code)),
        ("message"@, TypedDataView::String(d.message)),
    ]
}

/// The disconnect record that a payload holds: the payload must be a
/// key/value list with an unsigned `status-code` and a string `message`.
pub open spec fn spec_disconnect_of(p: PayloadView) -> Result<DisconnectView, ErrorView> {
    match p {
        PayloadView::KVList(l) => match spec_check_required(FrameType::HaproxyDisconnect, l) {
            Some(e) => Err(e),
            None => Ok(
                DisconnectView {
                    status_code: spec_get(l, "status-code"@)->Some_0->UInt32_0,
                    message: spec_get(l, "message"@)->Some_0->String_0,
                },
            ),
        },
        _ => Err(ErrorView::PayloadMismatch),
    }
}

/// The two keys of a disconnect frame differ.
pub proof fn lemma_disconnect_keys()
    ensures
        "status-code"@ != "message"@,
{
    reveal_strlit("status-code");
    reveal_strlit("message");
    assert("status-code"@.len() != "message"@.len());
}

/// The key/value list of a disconnect frame has the entries that the frame
/// type requires, under distinct keys.
pub proof fn lemma_disconnect_kv_wf(d: DisconnectView, t: FrameType)
    requires
        t == FrameType::HaproxyDisconnect || t == FrameType::AgentDisconnect,
    ensures
        crate::kv::distinct_keys(spec_disconnect_kv(d)),
        spec_check_required(t, spec_disconnect_kv(d)) is None,
        spec_disconnect_of(PayloadView::KVList(spec_disconnect_kv(d))) == Ok::<
            DisconnectView,
            ErrorView,
        >(d),
{
    lemma_disconnect_keys();
    let l = spec_disconnect_kv(d);
    crate::kv::lemma_get_at(l, 0);
    crate::kv::lemma_get_at(l, 1);
}

/// Builds the key/value list of a disconnect frame.
pub fn disconnect_kv_list(status_code: u32, message: &String) -> (list: KvList)
    ensures
        list@ == spec_disconnect_kv(DisconnectView { status_code, message: message@ }),
{
    let mut list = KvList::new();
    proof {
        lemma_disconnect_keys();
        lemma_insert_new(list@, "status-code"@, TypedDataView::UInt32(status_code));
    }
    list.insert(String::from_str("status-code"), TypedData::UInt32(status_code));
    proof {
        lemma_insert_new(list@, "message"@, TypedDataView::String(message@));
    }
    list.insert(String::from_str("message"), TypedData::String(message.clone()));
    assert(list@ =~= spec_disconnect_kv(DisconnectView { status_code, message: message@ }));
    list
}

/// Reads the status code and the message out of the payload of a disconnect
/// frame.
pub fn disconnect_from_payload(payload: &FramePayload) -> (res: Result<
    (u32, String),
    ProtocolError,
>)
    ensures
        match res {
            Ok((status_code, message)) => spec_disconnect_of(payload@) == Ok::<
                DisconnectView,
                ErrorView,
            >(DisconnectView { status_code, message: message@ }),
            Err(e) => spec_disconnect_of(payload@) == Err::<DisconnectView, ErrorView>(e@),
        },
{
    match payload {
        FramePayload::KVList(list) => {
            let status_code = match get_u32(list, "status-code") {
                Ok(v) => v,
                Err(e) => {
                    return Err(e);
                },
            };
            let message = match get_text(list, "message") {
                Ok(v) => v.clone(),
                Err(e) => {
                    return Err(e);
                },
            };
            Ok((status_code, message))
        },
        _ => Err(ProtocolError::PayloadMismatch),
    }
}

impl HaproxyDisconnect {
    /// The key/value list that carries the record.
    pub fn to_kv_list(&self) -> (list: KvList)
        ensures
            list@ == spec_disconnect_kv(self@),
    {
        disconnect_kv_list(self.status_code, &self.message)
    }

    /// Reads the record out of the payload of a disconnect frame.
    pub fn try_from(payload: FramePayload) -> (res: Result<Self, ProtocolError>)
        ensures
            match res {
                Ok(d) => spec_disconnect_of(payload@) == Ok::<DisconnectView, ErrorView>(d@),
                Err(e) => spec_disconnect_of(payload@) == Err::<DisconnectView, ErrorView>(e@),
            },
    {
        match disconnect_from_payload(&payload) {
            Ok((status_code, message)) => Ok(HaproxyDisconnect { status_code, message }),
            Err(e) => Err(e),
        }
    }
}

/// A HAPROXY-DISCONNECT frame as it was received.
#[derive(Debug, Clone, PartialEq, Eq)]
pub struct HaproxyDisconnectFrame {
    pub metadata: Metadata,
    pub payload: HaproxyDisconnect,
}

impl SpopFrame for HaproxyDisconnectFrame {
    open spec fn spec_frame_type(&self) -> FrameType {
        FrameType::HaproxyDisconnect
    }

    open spec fn spec_metadata(&self) -> Metadata {
        self.metadata
    }

    open spec fn spec_payload(&self) -> PayloadView {
        PayloadView::KVList(spec_disconnect_kv(self.payload@))
    }

    fn frame_type(&self) -> (res: &FrameType) {
        &FrameType::HaproxyDisconnect
    }

    fn metadata(&self) -> (res: Metadata) {
        self.metadata
    }

    fn payload(&self) -> (res: FramePayload) {
        FramePayload::KVList(self.payload.to_kv_list())
    }
}

} // verus!
