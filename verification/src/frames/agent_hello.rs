//! AGENT-HELLO: the agent's reply that completes the handshake.

use vstd::prelude::*;
use vstd::string::StringExecFns;
use crate::error::ProtocolError;
use crate::frame::{
    spec_check_required, wf_frame, Frame, FrameFlags, FramePayload, FrameType, FrameView,
    Metadata, PayloadView,
};
use crate::frames::capabilities::{capabilities_text, spec_capabilities_text, FrameCapabilities};
use crate::kv::{distinct_keys, lemma_get_at, lemma_insert_new, KvList, KvView};
use crate::serialize::{spec_encode_body, spec_encode_frame};
use crate::types::{TypedData, TypedDataView};
use crate::{spec_frame_of, SpopFrame};

verus! {

/// What the agent settles on: the protocol version, the largest frame it
/// will take, and the capabilities it shares with the peer.
#[derive(Debug, Clone, PartialEq, Eq)]
pub struct AgentHello {
    pub version: String,
    pub max_frame_size: u32,
    pub capabilities: Vec<FrameCapabilities>,
}

/// Mathematical counterpart of [`AgentHello`].
pub struct AgentHelloView {
    pub version: Seq<char>,
    pub max_frame_size: u32,
    pub capabilities: Seq<FrameCapabilities>,
}

impl View for AgentHello {
    type V = AgentHelloView;

    open spec fn view(&self) -> AgentHelloView {
        AgentHelloView {
            version: self.version@,
            max_frame_size: self.max_frame_size,
            capabilities: self.capabilities@,
        }
    }
}

/// The key/value list of an AGENT-HELLO frame.
pub open spec fn spec_agent_hello_kv(h: AgentHelloView) -> KvView {
    seq![
        ("version"@, TypedDataView::String(h.version)),
        ("max-frame-size"@, TypedDataView::UInt32(h.max_frame_size)),
        ("capabilities"@, TypedDataView::String(spec_capabilities_text(h.capabilities))),
    ]
}

/// The three keys of an AGENT-HELLO frame differ from each other.
pub proof fn lemma_agent_hello_keys()
    ensures
        "version"@ != "max-frame-size"@,
        "version"@ != "capabilities"@,
        "max-frame-size"@ != "capabilities"@,
{
    reveal_strlit("version");
    reveal_strlit("max-frame-size");
    reveal_strlit("capabilities");
    assert("version"@.len() == 7);
    assert("max-frame-size"@.len() == 14);
    assert("capabilities"@.len() == 12);
}

/// The key/value list of an AGENT-HELLO frame has the entries that the
/// frame type requires, under distinct keys.
pub proof fn lemma_agent_hello_kv_wf(h: AgentHelloView)
    ensures
        distinct_keys(spec_agent_hello_kv(h)),
        spec_check_required(FrameType::AgentHello, spec_agent_hello_kv(h)) is None,
{
    lemma_agent_hello_keys();
    let l = spec_agent_hello_kv(h);
    lemma_get_at(l, 0);
    lemma_get_at(l, 1);
    lemma_get_at(l, 2);
}

/// The AGENT-HELLO frame that carries `h`.
pub open spec fn spec_agent_hello_frame(h: AgentHelloView) -> FrameView {
    FrameView {
        frame_type: FrameType::AgentHello,
        metadata: Metadata { flags: FrameFlags(1), stream_id: 0, frame_id: 0 },
        payload: PayloadView::KVList(spec_agent_hello_kv(h)),
    }
}

impl SpopFrame for AgentHello {
    open spec fn spec_frame_type(&self) -> FrameType {
        FrameType::AgentHello
    }

    open spec fn spec_metadata(&self) -> Metadata {
        Metadata { flags: FrameFlags(1), stream_id: 0, frame_id: 0 }
    }

    open spec fn spec_payload(&self) -> PayloadView {
        PayloadView::KVList(spec_agent_hello_kv(self@))
    }

    fn frame_type(&self) -> (res: &FrameType) {
        &FrameType::AgentHello
    }

    fn metadata(&self) -> (res: Metadata) {
        Metadata { flags: FrameFlags::new(true, false), stream_id: 0, frame_id: 0 }
    }

    fn payload(&self) -> (res: FramePayload) {
        let mut list = KvList::new();
        let caps = capabilities_text(&self.capabilities);
        proof {
            lemma_agent_hello_keys();
            lemma_insert_new(list@, "version"@, TypedDataView::String(self.version@));
        }
        list.insert(String::from_str("version"), TypedData::String(self.version.clone()));
        proof {
            lemma_insert_new(
                list@,
                "max-frame-size"@,
                TypedDataView::UInt32(self.max_frame_size),
            );
        }
        list.insert(String::from_str("max-frame-size"), TypedData::UInt32(self.max_frame_size));
        proof {
            lemma_insert_new(list@, "capabilities"@, TypedDataView::String(caps@));
        }
        list.insert(String::from_str("capabilities"), TypedData::String(caps));
        assert(list@ =~= spec_agent_hello_kv(self@));
        FramePayload::KVList(list)
    }
}

impl AgentHello {
    /// The frame that carries the record.  It is always well formed.
    pub fn to_frame(&self) -> (res: Frame)
        ensures
            res@ == spec_frame_of(self),
            res@ == spec_agent_hello_frame(self@),
            wf_frame(res@),
    {
        proof {
            lemma_agent_hello_kv_wf(self@);
        }
        Frame::assemble(FrameType::AgentHello, self.metadata(), self.payload())
    }

    /// The wire form of the frame, unless its body is too long for the
    /// length prefix.
    pub fn serialize(&self) -> (res: Result<Vec<u8>, ProtocolError>)
        ensures
            match res {
                Ok(out) => out@ == spec_encode_frame(spec_frame_of(self)),
                Err(e) => e == ProtocolError::FrameTooLarge && spec_encode_body(
                    spec_frame_of(self),
                ).len() > u32::MAX,
            },
    {
        let frame = self.to_frame();
        frame.serialize()
    }
}

} // verus!
