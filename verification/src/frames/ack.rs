//! ACK: the agent's answer to a NOTIFY, with the actions to apply.

use vstd::prelude::*;
use vstd::string::StringExecFns;
use crate::actions::{actions_view, clone_actions, Action, ActionView, VarScope};
use crate::frame::{
    wf_frame, Frame, FrameFlags, FramePayload, FrameType, FrameView, Metadata, PayloadView,
};
use crate::types::TypedData;
use crate::{spec_frame_of, SpopFrame};

verus! {

/// An ACK under construction: the identifiers of the NOTIFY that it answers
/// and the actions gathered so far.
#[derive(Debug, Clone, PartialEq, Eq)]
pub struct Ack {
    pub stream_id: u64,
    pub frame_id: u64,
    pub actions: Vec<Action>,
}

/// Mathematical counterpart of [`Ack`].
pub struct AckView {
    pub stream_id: u64,
    pub frame_id: u64,
    pub actions: Seq<ActionView>,
}

impl View for Ack {
    type V = AckView;

    open spec fn view(&self) -> AckView {
        AckView {
            stream_id: self.stream_id,
            frame_id: self.frame_id,
            actions: actions_view(self.actions@),
        }
    }
}

/// The ACK frame that carries `a`.
pub open spec fn spec_ack_frame(a: AckView) -> FrameView {
    FrameView {
        frame_type: FrameType::Ack,
        metadata: Metadata { flags: FrameFlags(1), stream_id: a.stream_id, frame_id: a.frame_id },
        payload: PayloadView::ListOfActions(a.actions),
    }
}

impl Ack {
    /// An ACK without actions for the NOTIFY with the given identifiers.
    pub fn new(stream_id: u64, frame_id: u64) -> (res: Self)
        ensures
            res@ == (AckView { stream_id, frame_id, actions: Seq::empty() }),
    {
        let res = Self { stream_id, frame_id, actions: Vec::new() };
        assert(actions_view(res.actions@) =~= Seq::<ActionView>::empty());
        res
    }

    /// Adds a set-var action at the end.
    pub fn set_var(self, scope: VarScope, name: &str, value: TypedData) -> (res: Self)
        ensures
            res@ == (AckView {
                stream_id: self@.stream_id,
                frame_id: self@.frame_id,
                actions: self@.actions.push(
                    ActionView::SetVar { scope, name: name@, value: value@ },
                ),
            }),
    {
        let mut actions = self.actions;
        let ghost before = actions_view(actions@);
        actions.push(Action::SetVar { scope, name: String::from_str(name), value });
        assert(actions_view(actions@) =~= before.push(
            ActionView::SetVar { scope, name: name@, value: value@ },
        ));
        Self { stream_id: self.stream_id, frame_id: self.frame_id, actions }
    }

    /// Adds an unset-var action at the end.
    pub fn unset_var(self, scope: VarScope, name: &str) -> (res: Self)
        ensures
            res@ == (AckView {
                stream_id: self@.stream_id,
                frame_id: self@.frame_id,
                actions: self@.actions.push(ActionView::UnSetVar { scope, name: name@ }),
            }),
    {
        let mut actions = self.actions;
        let ghost before = actions_view(actions@);
        actions.push(Action::UnSetVar { scope, name: String::from_str(name) });
        assert(actions_view(actions@) =~= before.push(ActionView::UnSetVar { scope, name: name@ }));
        Self { stream_id: self.stream_id, frame_id: self.frame_id, actions }
    }

    /// The frame that carries the ACK.  It is always well formed.
    pub fn to_frame(&self) -> (res: Frame)
        ensures
            res@ == spec_frame_of(self),
            res@ == spec_ack_frame(self@),
            wf_frame(res@),
    {
        Frame::assemble(FrameType::Ack, self.metadata(), self.payload())
    }
}

impl SpopFrame for Ack {
    open spec fn spec_frame_type(&self) -> FrameType {
        FrameType::Ack
    }

    open spec fn spec_metadata(&self) -> Metadata {
        Metadata { flags: FrameFlags(1), stream_id: self.stream_id, frame_id: self.frame_id }
    }

    open spec fn spec_payload(&self) -> PayloadView {
        PayloadView::ListOfActions(self@.actions)
    }

    fn frame_type(&self) -> (res: &FrameType) {
        &FrameType::Ack
    }

    fn metadata(&self) -> (res: Metadata) {
        Metadata {
            flags: FrameFlags::new(true, false),
            stream_id: self.stream_id,
            frame_id: self.frame_id,
        }
    }

    fn payload(&self) -> (res: FramePayload) {
        FramePayload::ListOfActions(clone_actions(&self.actions))
    }
}

} // verus!
