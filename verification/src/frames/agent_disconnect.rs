//! AGENT-DISCONNECT: the agent says why it closes the connection.

use vstd::prelude::*;
use crate::frame::{
    wf_frame, Frame, FrameFlags, FramePayload, FrameType, FrameView, Metadata, PayloadView,
};
use crate::frames::haproxy_disconnect::{
    disconnect_kv_list, lemma_disconnect_kv_wf, spec_disconnect_kv, DisconnectView,
};
use crate::{spec_frame_of, SpopFrame};

verus! {

/// The status code and message with which the agent closes the connection.
#[derive(Debug, Clone, PartialEq, Eq)]
pub struct AgentDisconnect {
    pub status_code: u32,
    pub message: String,
}

impl View for AgentDisconnect {
    type V = DisconnectView;

    open spec fn view(&self) -> DisconnectView {
        DisconnectView { status_code: self.status_code, message: self.message@ }
    }
}

/// The AGENT-DISCONNECT frame with the given status code and message.
pub open spec fn spec_agent_disconnect_frame(d: DisconnectView) -> FrameView {
    FrameView {
        frame_type: FrameType::AgentDisconnect,
        metadata: Metadata { flags: FrameFlags(1), stream_id: 0, frame_id: 0 },
        payload: PayloadView::KVList(spec_disconnect_kv(d)),
    }
}

impl SpopFrame for AgentDisconnect {
    open spec fn spec_frame_type(&self) -> FrameType {
        FrameType::AgentDisconnect
    }

    open spec fn spec_metadata(&self) -> Metadata {
        Metadata { flags: FrameFlags(1), stream_id: 0, frame_id: 0 }
    }

    open spec fn spec_payload(&self) -> PayloadView {
        PayloadView::KVList(spec_disconnect_kv(self@))
    }

    fn frame_type(&self) -> (res: &FrameType) {
        &FrameType::AgentDisconnect
    }

    fn metadata(&self) -> (res: Metadata) {
        Metadata { flags: FrameFlags::new(true, false), stream_id: 0, frame_id: 0 }
    }

    fn payload(&self) -> (res: FramePayload) {
        FramePayload::KVList(disconnect_kv_list(self.status_code, &self.message))
    }
}

impl AgentDisconnect {
    /// The frame that carries the record.  It is always well formed.
    pub fn to_frame(&self) -> (res: Frame)
        ensures
            res@ == spec_frame_of(self),
            res@ == spec_agent_disconnect_frame(self@),
            wf_frame(res@),
    {
        proof {
            lemma_disconnect_kv_wf(self@, FrameType::AgentDisconnect);
        }
        Frame::assemble(FrameType::AgentDisconnect, self.metadata(), self.payload())
    }
}

} // verus!
