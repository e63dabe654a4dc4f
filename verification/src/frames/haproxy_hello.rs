//! HAPROXY-HELLO: the first frame on a connection, in which the load
//! balancer announces what it supports.

use vstd::prelude::*;
use vstd::string::StringExecFns;
use crate::error::{ErrorView, ProtocolError};
use crate::frame::{
    get_text, get_u32, spec_check_required, FramePayload, FrameType, Metadata, PayloadView,
};
use crate::frames::capabilities::{
    capabilities_text, parse_capabilities, spec_capabilities_text, spec_parse_capabilities,
    FrameCapabilities,
};
use crate::frames::version::{
    parse_versions, spec_parse_versions, spec_versions_text, versions_text, Version,
};
use crate::kv::{lemma_insert_new, spec_get, KvList, KvView};
use crate::types::{TypedData, TypedDataView};
use crate::SpopFrame;

verus! {

/// What the load balancer announces: the protocol versions it speaks, the
/// largest frame it will take, its capabilities, whether this is a health
/// check, and the identifier of its engine.
#[derive(Debug, Clone, PartialEq, Eq)]
pub struct HaproxyHello {
    pub supported_versions: Vec<Version>,
    pub max_frame_size: u32,
    pub capabilities: Vec<FrameCapabilities>,
    pub healthcheck: Option<bool>,
    pub engine_id: Option<String>,
}

/// Mathematical counterpart of [`HaproxyHello`].
pub struct HaproxyHelloView {
    pub supported_versions: Seq<Version>,
    pub max_frame_size: u32,
    pub capabilities: Seq<FrameCapabilities>,
    pub healthcheck: Option<bool>,
    pub engine_id: Option<Seq<char>>,
}

impl View for HaproxyHello {
    type V = HaproxyHelloView;

    open spec fn view(&self) -> HaproxyHelloView {
        HaproxyHelloView {
            supported_versions: self.supported_versions@,
            max_frame_size: self.max_frame_size,
            capabilities: self.capabilities@,
            healthcheck: self.healthcheck,
            engine_id: match self.engine_id {
                Some(id) => Some(id@),
                None => None,
            },
        }
    }
}

/// The key/value list of a HAPROXY-HELLO frame: the three required entries
/// and, where they are set, the two optional ones.
pub open spec fn spec_hello_kv(h: HaproxyHelloView) -> KvView {
    let required = seq![
        ("supported-versions"@, TypedDataView::String(spec_versions_text(h.supported_versions))),
        ("max-frame-size"@, TypedDataView::UInt32(h.max_frame_size)),
        ("capabilities"@, TypedDataView::String(spec_capabilities_text(h.capabilities))),
    ];
    let checked = match h.healthcheck {
        Some(b) => required.push(("healthcheck"@, TypedDataView::Bool(b))),
        None => required,
    };
    match h.engine_id {
        Some(id) => checked.push(("engine-id"@, TypedDataView::String(id))),
        None => checked,
    }
}

/// The record that a payload holds.  The payload must be a key/value list
/// with the three required entries, and the versions must be version
/// numbers.  An optional entry of the wrong type counts as absent.
pub open spec fn spec_hello_of(p: PayloadView) -> Result<HaproxyHelloView, ErrorView> {
    match p {
        PayloadView::KVList(l) => match spec_check_required(FrameType::HaproxyHello, l) {
            Some(e) => Err(e),
            None => match spec_parse_versions(
                spec_get(l, "supported-versions"@)->Some_0->String_0,
            ) {
                Err(e) => Err(e),
                Ok(versions) => Ok(
                    HaproxyHelloView {
                        supported_versions: versions,
                        max_frame_size: spec_get(l, "max-frame-size"@)->Some_0->UInt32_0,
                        capabilities: spec_parse_capabilities(
                            spec_get(l, "capabilities"@)->Some_0->String_0,
                        ),
                        healthcheck: match spec_get(l, "healthcheck"@) {
                            Some(TypedDataView::Bool(b)) => Some(b),
                            _ => None,
                        },
                        engine_id: match spec_get(l, "engine-id"@) {
                            Some(TypedDataView::String(id)) => Some(id),
                            _ => None,
                        },
                    },
                ),
            },
        },
        _ => Err(ErrorView::PayloadMismatch),
    }
}

/// The five keys of a HAPROXY-HELLO frame differ from each other.
pub proof fn lemma_hello_keys()
    ensures
        "supported-versions"@.len() == 18,
        "max-frame-size"@.len() == 14,
        "capabilities"@.len() == 12,
        "healthcheck"@.len() == 11,
        "engine-id"@.len() == 9,
{
    reveal_strlit("supported-versions");
    reveal_strlit("max-frame-size");
    reveal_strlit("capabilities");
    reveal_strlit("healthcheck");
    reveal_strlit("engine-id");
}

impl HaproxyHello {
    /// The key/value list that carries the record.
    pub fn to_kv_list(&self) -> (list: KvList)
        ensures
            list@ == spec_hello_kv(self@),
    {
        let mut list = KvList::new();
        let versions = versions_text(&self.supported_versions);
        let caps = capabilities_text(&self.capabilities);
        proof {
            lemma_hello_keys();
            lemma_insert_new(list@, "supported-versions"@, TypedDataView::String(versions@));
        }
        list.insert(String::from_str("supported-versions"), TypedData::String(versions));
        proof {
            lemma_insert_new(
                list@,
                "max-frame-size"@,
                TypedDataView::UInt32(self.max_frame_size),
            );
        }
        list.insert(String::from_str("max-frame-size"), TypedData::UInt32(self.max_frame_size));
        proof {
            lemma_insert_new(list@, "capabilities"@, TypedDataView::String(caps@));
        }
        list.insert(String::from_str("capabilities"), TypedData::String(caps));
        if let Some(healthcheck) = self.healthcheck {
            proof {
                lemma_insert_new(list@, "healthcheck"@, TypedDataView::Bool(healthcheck));
            }
            list.insert(String::from_str("healthcheck"), TypedData::Bool(healthcheck));
        }
        if let Some(engine_id) = &self.engine_id {
            proof {
                lemma_insert_new(list@, "engine-id"@, TypedDataView::String(engine_id@));
            }
            list.insert(String::from_str("engine-id"), TypedData::String(engine_id.clone()));
        }
        assert(list@ =~= spec_hello_kv(self@));
        list
    }

    /// Reads the record out of the payload of a HAPROXY-HELLO frame.
    pub fn try_from(payload: FramePayload) -> (res: Result<Self, ProtocolError>)
        ensures
            match res {
                Ok(h) => spec_hello_of(payload@) == Ok::<HaproxyHelloView, ErrorView>(h@),
                Err(e) => spec_hello_of(payload@) == Err::<HaproxyHelloView, ErrorView>(e@),
            },
    {
        match &payload {
            FramePayload::KVList(list) => {
                let versions_text = match get_text(list, "supported-versions") {
                    Ok(v) => v,
                    Err(e) => {
                        return Err(e);
                    },
                };
                let max_frame_size = match get_u32(list, "max-frame-size") {
                    Ok(v) => v,
                    Err(e) => {
                        return Err(e);
                    },
                };
                let capabilities_text = match get_text(list, "capabilities") {
                    Ok(v) => v,
                    Err(e) => {
                        return Err(e);
                    },
                };
                let capabilities = parse_capabilities(capabilities_text.as_str());
                let healthcheck = match list.get("healthcheck") {
                    Some(TypedData::Bool(val)) => Some(*val),
                    _ => None,
                };
                let engine_id = match list.get("engine-id") {
                    Some(TypedData::String(val)) => Some(val.clone()),
                    _ => None,
                };
                let supported_versions = match parse_versions(versions_text.as_str()) {
                    Ok(v) => v,
                    Err(e) => {
                        return Err(e);
                    },
                };
                Ok(
                    Self {
                        supported_versions,
                        max_frame_size,
                        capabilities,
                        healthcheck,
                        engine_id,
                    },
                )
            },
            _ => Err(ProtocolError::PayloadMismatch),
        }
    }
}

/// A HAPROXY-HELLO frame as it was received.
#[derive(Debug, Clone, PartialEq, Eq)]
pub struct HaproxyHelloFrame {
    pub metadata: Metadata,
    pub payload: HaproxyHello,
}

impl SpopFrame for HaproxyHelloFrame {
    open spec fn spec_frame_type(&self) -> FrameType {
        FrameType::HaproxyHello
    }

    open spec fn spec_metadata(&self) -> Metadata {
        self.metadata
    }

    open spec fn spec_payload(&self) -> PayloadView {
        PayloadView::KVList(spec_hello_kv(self.payload@))
    }

    fn frame_type(&self) -> (res: &FrameType) {
        &FrameType::HaproxyHello
    }

    fn metadata(&self) -> (res: Metadata) {
        self.metadata
    }

    fn payload(&self) -> (res: FramePayload) {
        FramePayload::KVList(self.payload.to_kv_list())
    }
}

} // verus!
