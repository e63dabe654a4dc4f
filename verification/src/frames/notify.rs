//! NOTIFY: the load balancer hands messages to the agent.

use vstd::prelude::*;
use crate::frame::{
    clone_messages, messages_view, FramePayload, FrameType, Message, Metadata, PayloadView,
};
use crate::SpopFrame;

verus! {

/// A NOTIFY frame as it was received.
#[derive(Debug, Clone, PartialEq, Eq)]
pub struct NotifyFrame {
    pub metadata: Metadata,
    pub messages: Vec<Message>,
}

impl SpopFrame for NotifyFrame {
    open spec fn spec_frame_type(&self) -> FrameType {
        FrameType::Notify
    }

    open spec fn spec_metadata(&self) -> Metadata {
        self.metadata
    }

    open spec fn spec_payload(&self) -> PayloadView {
        PayloadView::ListOfMessages(messages_view(self.messages@))
    }

    fn frame_type(&self) -> (res: &FrameType) {
        &FrameType::Notify
    }

    fn metadata(&self) -> (res: Metadata) {
        self.metadata
    }

    fn payload(&self) -> (res: FramePayload) {
        FramePayload::ListOfMessages(clone_messages(&self.messages))
    }
}

} // verus!
