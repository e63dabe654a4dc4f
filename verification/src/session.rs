//! The session: what an agent does with the frames of one connection.
//!
//! A session is a state machine.  It is fed events (a frame that arrived, a
//! frame that could not be read, a handler that finished, a writer that ran
//! dry) and answers each with at most one effect for its owner to carry out:
//! send a frame, hand a NOTIFY to the handler, or cancel a handler.  The
//! session itself neither reads nor writes nor calls the handler, so the
//! handler may take as long as it likes and several may run at once.

use vstd::prelude::*;
use bytes::BytesMut;
use crate::actions::{actions_view, Action, ActionView};
use crate::codec::{
    buffer_bytes, buffer_new, buffer_put_slice, spec_decode_advance, SpopCodec,
};
use crate::error::{spec_describe, spec_status_of, ErrorView, ProtocolError};
use crate::frame::{
    messages_view, Frame, FramePayload, FrameType, FrameView, Message, MessageView, PayloadView,
};
use crate::frames::ack::{spec_ack_frame, Ack, AckView};
use crate::frames::agent_disconnect::{spec_agent_disconnect_frame, AgentDisconnect};
use crate::frames::agent_hello::{spec_agent_hello_frame, AgentHello, AgentHelloView};
use crate::frames::capabilities::{has_capability, FrameCapabilities};
use crate::frames::haproxy_disconnect::{
    disconnect_from_payload, spec_disconnect_of, DisconnectView,
};
use crate::frames::haproxy_hello::{spec_hello_of, HaproxyHello};
use crate::frames::version::{
    select_version, spec_select, spec_version_text, Version,
};
use crate::parser::spec_decode_frame;
use crate::roundtrip::lemma_decode_frame_consumed;
use crate::text::text_from_chars;

verus! {

/// The lifecycle of one connection.
#[derive(Debug, Clone, Copy, PartialEq, Eq, Structural)]
pub enum SessionState {
    /// Nothing has been received yet; only a HAPROXY-HELLO is acceptable.
    AwaitHello,
    /// The handshake succeeded; NOTIFY frames are being served.
    Established,
    /// The last outbound frame has been produced; nothing more is accepted.
    Draining,
    /// Terminal state.
    Closed,
}

/// The smallest maximum frame size that a peer may announce.
pub const MIN_FRAME_SIZE: u32 = 256;

/// What the agent supports.
#[derive(Debug, Clone, PartialEq, Eq)]
pub struct SessionConfig {
    pub supported_versions: Vec<Version>,
    pub max_frame_size: u32,
    pub capabilities: Vec<FrameCapabilities>,
}

impl Default for SessionConfig {
    /// The agent speaks version 2.0, takes frames of up to 16380 bytes and
    /// supports pipelining.
    fn default() -> (res: Self)
        ensures
            res@.supported_versions == seq![Version { major: 2, minor: 0, patch: 0 }],
            res@.max_frame_size == 16380,
            res@.capabilities == seq![FrameCapabilities::Pipelining],
    {
        let mut supported_versions: Vec<Version> = Vec::new();
        supported_versions.push(Version::new(2, 0, 0));
        let mut capabilities: Vec<FrameCapabilities> = Vec::new();
        capabilities.push(FrameCapabilities::Pipelining);
        assert(supported_versions@ =~= seq![Version { major: 2, minor: 0, patch: 0 }]);
        assert(capabilities@ =~= seq![FrameCapabilities::Pipelining]);
        SessionConfig { supported_versions, max_frame_size: 16380, capabilities }
    }
}

/// Mathematical counterpart of [`SessionConfig`].
pub struct ConfigView {
    pub supported_versions: Seq<Version>,
    pub max_frame_size: u32,
    pub capabilities: Seq<FrameCapabilities>,
}

impl View for SessionConfig {
    type V = ConfigView;

    open spec fn view(&self) -> ConfigView {
        ConfigView {
            supported_versions: self.supported_versions@,
            max_frame_size: self.max_frame_size,
            capabilities: self.capabilities@,
        }
    }
}

/// Mathematical counterpart of a session.
pub struct SessionView {
    /// Where the connection stands.
    pub state: SessionState,
    /// What the agent supports.
    pub config: ConfigView,
    /// The version agreed on, once the handshake is done.
    pub version: Option<(u64, u64)>,
    /// The longest frame body that is accepted: the agent's own limit until
    /// the handshake is done, then the smaller of the two peers' limits.
    pub max_frame_size: u32,
    /// Whether both peers announced pipelining.
    pub pipelining: bool,
    /// The NOTIFY frames whose handlers have not finished, oldest first,
    /// each by its stream and frame identifiers.
    pub pending: Seq<(u64, u64)>,
    /// Bytes that arrived and do not yet make a whole frame.
    pub inbound: Seq<u8>,
}

/// What the owner of the session is asked to do.
#[derive(Debug, PartialEq, Eq)]
pub enum Effect {
    /// Nothing.
    Nothing,
    /// Write this frame to the peer.
    Send(Frame),
    /// Hand these messages to the handler and report its result under the
    /// same identifiers.
    Dispatch { stream_id: u64, frame_id: u64, messages: Vec<Message> },
    /// Cancel the handler that runs for these identifiers and drop its result.
    Cancel { stream_id: u64, frame_id: u64 },
}

/// Mathematical counterpart of [`Effect`].
pub enum EffectView {
    Nothing,
    Send(FrameView),
    Dispatch { stream_id: u64, frame_id: u64, messages: Seq<MessageView> },
    Cancel { stream_id: u64, frame_id: u64 },
}

impl View for Effect {
    type V = EffectView;

    open spec fn view(&self) -> EffectView {
        match *self {
            Effect::Nothing => EffectView::Nothing,
            Effect::Send(frame) => EffectView::Send(frame@),
            Effect::Dispatch { stream_id, frame_id, messages } => EffectView::Dispatch {
                stream_id,
                frame_id,
                messages: messages_view(messages@),
            },
            Effect::Cancel { stream_id, frame_id } => EffectView::Cancel { stream_id, frame_id },
        }
    }
}

/// The answer of the session to one event: an effect, and the error that
/// the event brought to light, if any.
#[derive(Debug, PartialEq, Eq)]
pub struct Outcome {
    pub effect: Effect,
    pub error: Option<ProtocolError>,
}

/// Mathematical counterpart of [`Outcome`].
pub struct OutcomeView {
    pub effect: EffectView,
    pub error: Option<ErrorView>,
}

impl View for Outcome {
    type V = OutcomeView;

    open spec fn view(&self) -> OutcomeView {
        OutcomeView {
            effect: self.effect@,
            error: match self.error {
                Some(e) => Some(e@),
                None => None,
            },
        }
    }
}

/// How the handler of a NOTIFY ended.
#[derive(Debug, PartialEq, Eq)]
pub enum HandlerResult {
    /// The handler produced these actions.
    Actions(Vec<Action>),
    /// The handler failed; the connection goes on.
    Failed,
    /// The handler failed and asks for the connection to be closed.
    Terminate,
}

/// Mathematical counterpart of [`HandlerResult`].
pub enum HandlerResultView {
    Actions(Seq<ActionView>),
    Failed,
    Terminate,
}

impl View for HandlerResult {
    type V = HandlerResultView;

    open spec fn view(&self) -> HandlerResultView {
        match *self {
            HandlerResult::Actions(actions) => HandlerResultView::Actions(actions_view(actions@)),
            HandlerResult::Failed => HandlerResultView::Failed,
            HandlerResult::Terminate => HandlerResultView::Terminate,
        }
    }
}

/// The session as it starts out with the given configuration.
pub open spec fn spec_initial(config: ConfigView) -> SessionView {
    SessionView {
        state: SessionState::AwaitHello,
        config,
        version: None,
        max_frame_size: config.max_frame_size,
        pipelining: false,
        pending: Seq::empty(),
        inbound: Seq::empty(),
    }
}

/// `pending` without the entry `key`.
pub open spec fn spec_without(pending: Seq<(u64, u64)>, key: (u64, u64)) -> Seq<(u64, u64)>
    decreases pending.len(),
{
    if pending.len() == 0 {
        Seq::empty()
    } else {
        let before = spec_without(pending.drop_last(), key);
        if pending.last() == key {
            before
        } else {
            before.push(pending.last())
        }
    }
}

/// The capabilities that both peers announced.
pub open spec fn spec_common_capabilities(
    local: Seq<FrameCapabilities>,
    peer: Seq<FrameCapabilities>,
) -> Seq<FrameCapabilities> {
    if local.contains(FrameCapabilities::Pipelining) && peer.contains(
        FrameCapabilities::Pipelining,
    ) {
        seq![FrameCapabilities::Pipelining]
    } else {
        Seq::empty()
    }
}

/// The session gives up: it answers with an AGENT-DISCONNECT that reports
/// the error, forgets its pending handlers, and accepts nothing more.
pub open spec fn spec_refuse(s: SessionView, e: ErrorView) -> (SessionView, OutcomeView) {
    (
        SessionView { state: SessionState::Draining, pending: Seq::empty(), ..s },
        OutcomeView {
            effect: EffectView::Send(
                spec_agent_disconnect_frame(
                    DisconnectView { status_code: spec_status_of(e), message: spec_describe(e) },
                ),
            ),
            error: Some(e),
        },
    )
}

/// The handshake.  The hello must announce a maximum frame size of at least
/// 256 and a version that the agent supports too.  The answer names the
/// newest common version, the smaller of the two maximum frame sizes and the
/// common capabilities.  After a health check the session is closed at once;
/// otherwise it is established.
pub open spec fn spec_on_hello(s: SessionView, payload: PayloadView) -> (
    SessionView,
    OutcomeView,
) {
    match spec_hello_of(payload) {
        Err(e) => spec_refuse(s, e),
        Ok(hello) => if hello.max_frame_size < MIN_FRAME_SIZE {
            spec_refuse(s, ErrorView::InvalidFrameSize(hello.max_frame_size))
        } else {
            match spec_select(hello.supported_versions, s.config.supported_versions) {
                None => spec_refuse(s, ErrorView::VersionMismatch),
                Some((major, minor)) => {
                    let max_frame_size = if hello.max_frame_size < s.config.max_frame_size {
                        hello.max_frame_size
                    } else {
                        s.config.max_frame_size
                    };
                    let capabilities = spec_common_capabilities(
                        s.config.capabilities,
                        hello.capabilities,
                    );
                    (
                        SessionView {
                            state: if hello.healthcheck == Some(true) {
                                SessionState::Closed
                            } else {
                                SessionState::Established
                            },
                            version: Some((major, minor)),
                            max_frame_size,
                            pipelining: capabilities.len() > 0,
                            ..s
                        },
                        OutcomeView {
                            effect: EffectView::Send(
                                spec_agent_hello_frame(
                                    AgentHelloView {
                                        version: spec_version_text(
                                            Version { major, minor, patch: 0 },
                                        ),
                                        max_frame_size,
                                        capabilities,
                                    },
                                ),
                            ),
                            error: None,
                        },
                    )
                },
            }
        },
    }
}

/// The messages that a payload carries.
pub open spec fn spec_messages_of(payload: PayloadView) -> Seq<MessageView> {
    match payload {
        PayloadView::ListOfMessages(messages) => messages,
        _ => Seq::empty(),
    }
}

/// A NOTIFY in an established session.  Without pipelining it is refused
/// while an earlier one is still pending; so is one that repeats the
/// identifiers of a pending one.  Otherwise it becomes pending and goes to
/// the handler.
pub open spec fn spec_on_notify(s: SessionView, f: FrameView) -> (SessionView, OutcomeView) {
    let key = (f.metadata.stream_id, f.metadata.frame_id);
    if (!s.pipelining && s.pending.len() > 0) || s.pending.contains(key) {
        spec_refuse(s, ErrorView::UnexpectedFrame(SessionState::Established, FrameType::Notify))
    } else {
        (
            SessionView { pending: s.pending.push(key), ..s },
            OutcomeView {
                effect: EffectView::Dispatch {
                    stream_id: key.0,
                    frame_id: key.1,
                    messages: spec_messages_of(f.payload),
                },
                error: None,
            },
        )
    }
}

/// A HAPROXY-DISCONNECT in an established session: the session answers with
/// an AGENT-DISCONNECT that repeats the status code and the message, and
/// accepts nothing more.
pub open spec fn spec_on_disconnect(s: SessionView, payload: PayloadView) -> (
    SessionView,
    OutcomeView,
) {
    match spec_disconnect_of(payload) {
        Err(e) => spec_refuse(s, e),
        Ok(d) => (
            SessionView { state: SessionState::Draining, pending: Seq::empty(), ..s },
            OutcomeView { effect: EffectView::Send(spec_agent_disconnect_frame(d)), error: None },
        ),
    }
}

/// What the session does with a frame that arrived.
pub open spec fn spec_on_frame(s: SessionView, f: FrameView) -> (SessionView, OutcomeView) {
    match s.state {
        SessionState::AwaitHello => if f.frame_type == FrameType::HaproxyHello {
            spec_on_hello(s, f.payload)
        } else {
            spec_refuse(s, ErrorView::UnexpectedFrame(SessionState::AwaitHello, f.frame_type))
        },
        SessionState::Established => if f.frame_type == FrameType::Notify {
            spec_on_notify(s, f)
        } else if f.frame_type == FrameType::HaproxyDisconnect {
            spec_on_disconnect(s, f.payload)
        } else {
            spec_refuse(s, ErrorView::UnexpectedFrame(SessionState::Established, f.frame_type))
        },
        _ => (
            s,
            OutcomeView {
                effect: EffectView::Nothing,
                error: Some(ErrorView::UnexpectedFrame(s.state, f.frame_type)),
            },
        ),
    }
}

/// What the session does when a frame could not be read.  `NeedMore` is no
/// event.  ABORT in an established session cancels the handler of the frame
/// it names, if one is pending, and changes nothing else.  Every other error
/// makes the session give up.  A session that accepts nothing any more only
/// passes the error on.
pub open spec fn spec_on_error(s: SessionView, e: ErrorView) -> (SessionView, OutcomeView) {
    if s.state == SessionState::Draining || s.state == SessionState::Closed {
        (s, OutcomeView { effect: EffectView::Nothing, error: Some(e) })
    } else {
        match e {
            ErrorView::NeedMore => (s, OutcomeView { effect: EffectView::Nothing, error: None }),
            ErrorView::AbortRequested { stream_id, frame_id } => if s.state
                == SessionState::Established {
                if s.pending.contains((stream_id, frame_id)) {
                    (
                        SessionView {
                            pending: spec_without(s.pending, (stream_id, frame_id)),
                            ..s
                        },
                        OutcomeView {
                            effect: EffectView::Cancel { stream_id, frame_id },
                            error: None,
                        },
                    )
                } else {
                    (s, OutcomeView { effect: EffectView::Nothing, error: None })
                }
            } else {
                spec_refuse(s, e)
            },
            _ => spec_refuse(s, e),
        }
    }
}

/// What the session does when a handler has finished.  The result of a
/// handler that is not pending (it was cancelled, or the session has given
/// up) is dropped.  Otherwise the NOTIFY is answered with an ACK that repeats
/// its identifiers: with the actions of the handler, or with none if the
/// handler failed.  A handler that asks for it makes the session give up.
pub open spec fn spec_on_handler_done(
    s: SessionView,
    stream_id: u64,
    frame_id: u64,
    result: HandlerResultView,
) -> (SessionView, OutcomeView) {
    let key = (stream_id, frame_id);
    if s.state == SessionState::Established && s.pending.contains(key) {
        let done = SessionView { pending: spec_without(s.pending, key), ..s };
        match result {
            HandlerResultView::Actions(actions) => (
                done,
                OutcomeView {
                    effect: EffectView::Send(
                        spec_ack_frame(AckView { stream_id, frame_id, actions }),
                    ),
                    error: None,
                },
            ),
            HandlerResultView::Failed => (
                done,
                OutcomeView {
                    effect: EffectView::Send(
                        spec_ack_frame(AckView { stream_id, frame_id, actions: Seq::empty() }),
                    ),
                    error: Some(ErrorView::HandlerFailed),
                },
            ),
            HandlerResultView::Terminate => spec_refuse(s, ErrorView::HandlerFailed),
        }
    } else {
        (s, OutcomeView { effect: EffectView::Nothing, error: None })
    }
}

/// The writer has sent everything: a session that was draining is closed.
pub open spec fn spec_on_drained(s: SessionView) -> SessionView {
    if s.state == SessionState::Draining {
        SessionView { state: SessionState::Closed, ..s }
    } else {
        s
    }
}

/// What holds of a session at all times: both frame size limits are at
/// least 256 and the one in force is not above the agent's own; no NOTIFY is
/// pending twice; without pipelining at most one is pending; and none is
/// pending unless the session is established.
pub open spec fn session_inv(s: SessionView) -> bool {
    &&& s.config.max_frame_size >= MIN_FRAME_SIZE
    &&& MIN_FRAME_SIZE <= s.max_frame_size <= s.config.max_frame_size
    &&& s.pending.no_duplicates()
    &&& (!s.pipelining ==> s.pending.len() <= 1)
    &&& (s.state != SessionState::Established ==> s.pending.len() == 0)
}

/// The session accepts frames.
pub open spec fn spec_accepting(s: SessionView) -> bool {
    s.state == SessionState::AwaitHello || s.state == SessionState::Established
}

/// The session with other bytes waiting.
pub open spec fn spec_with_inbound(s: SessionView, inbound: Seq<u8>) -> SessionView {
    SessionView { inbound, ..s }
}

/// What a session does with a frame does not depend on the bytes that wait:
/// they are carried along.
pub proof fn lemma_frame_ignores_inbound(s: SessionView, inbound: Seq<u8>, f: FrameView)
    ensures
        spec_on_frame(spec_with_inbound(s, inbound), f) == (
            spec_with_inbound(spec_on_frame(s, f).0, inbound),
            spec_on_frame(s, f).1,
        ),
{
}

/// What a session does with an error does not depend on the bytes that wait:
/// they are carried along.
pub proof fn lemma_error_ignores_inbound(s: SessionView, inbound: Seq<u8>, e: ErrorView)
    ensures
        spec_on_error(spec_with_inbound(s, inbound), e) == (
            spec_with_inbound(spec_on_error(s, e).0, inbound),
            spec_on_error(s, e).1,
        ),
{
}

/// Reads frames off the bytes that wait in the session, for as long as the
/// session accepts frames and a whole frame is there, and lets the session
/// act on each.  Gives the session as it is left and its answers in order.
/// A frame that carries ABORT is skipped after the session has acted on it;
/// any other error ends the reading.
pub open spec fn spec_drain(s: SessionView) -> (SessionView, Seq<OutcomeView>)
    decreases s.inbound.len(),
    via spec_drain_decreases
{
    if !spec_accepting(s) {
        (s, Seq::empty())
    } else {
        let taken = spec_decode_advance(s.inbound, s.max_frame_size);
        let after = SessionView { inbound: s.inbound.skip(taken as int), ..s };
        match spec_decode_frame(s.inbound, s.max_frame_size) {
            Err(ErrorView::NeedMore) => (s, Seq::empty()),
            Ok((f, _)) => {
                let (next, outcome) = spec_on_frame(after, f);
                let (last, outcomes) = spec_drain(next);
                (last, seq![outcome] + outcomes)
            },
            Err(e) => {
                let (next, outcome) = spec_on_error(after, e);
                if taken > 0 {
                    let (last, outcomes) = spec_drain(next);
                    (last, seq![outcome] + outcomes)
                } else {
                    (next, seq![outcome])
                }
            },
        }
    }
}

#[via_fn]
proof fn spec_drain_decreases(s: SessionView) {
    lemma_decode_frame_consumed(s.inbound, s.max_frame_size);
    if spec_accepting(s) {
        let taken = spec_decode_advance(s.inbound, s.max_frame_size);
        let rest = s.inbound.skip(taken as int);
        match spec_decode_frame(s.inbound, s.max_frame_size) {
            Ok((f, n)) => {
                lemma_frame_ignores_inbound(s, rest, f);
            },
            Err(e) => {
                lemma_error_ignores_inbound(s, rest, e);
            },
        }
    }
}

/// What the session does with bytes that arrive: they join the bytes that
/// wait, and the session then reads what it can.
pub open spec fn spec_feed(s: SessionView, data: Seq<u8>) -> (SessionView, Seq<OutcomeView>) {
    spec_drain(SessionView { inbound: s.inbound + data, ..s })
}

/// The views of a vector of outcomes, in order.
pub open spec fn outcomes_view(v: Seq<Outcome>) -> Seq<OutcomeView> {
    v.map_values(|o: Outcome| o@)
}

/// The state of one connection.
#[derive(Debug)]
pub struct Session {
    state: SessionState,
    config: SessionConfig,
    version: Option<(u64, u64)>,
    max_frame_size: u32,
    pipelining: bool,
    pending: Vec<(u64, u64)>,
    inbound: BytesMut,
}

impl View for Session {
    type V = SessionView;

    closed spec fn view(&self) -> SessionView {
        SessionView {
            state: self.state,
            config: self.config@,
            version: self.version,
            max_frame_size: self.max_frame_size,
            pipelining: self.pipelining,
            pending: self.pending@,
            inbound: buffer_bytes(self.inbound),
        }
    }
}

impl Session {
    /// A session that waits for the hello of the peer.  The agent's own
    /// maximum frame size must be at least 256.
    pub fn new(config: SessionConfig) -> (res: Result<Session, ProtocolError>)
        ensures
            match res {
                Ok(session) => config.max_frame_size >= MIN_FRAME_SIZE && session@ == spec_initial(
                    config@,
                ) && session_inv(session@),
                Err(e) => config.max_frame_size < MIN_FRAME_SIZE && e
                    == ProtocolError::InvalidFrameSize(config.max_frame_size),
            },
    {
        if config.max_frame_size < MIN_FRAME_SIZE {
            return Err(ProtocolError::InvalidFrameSize(config.max_frame_size));
        }
        let max_frame_size = config.max_frame_size;
        Ok(
            Session {
                state: SessionState::AwaitHello,
                config,
                version: None,
                max_frame_size,
                pipelining: false,
                pending: Vec::new(),
                inbound: buffer_new(),
            },
        )
    }

    /// Where the connection stands.
    pub fn state(&self) -> (res: SessionState)
        ensures
            res == self@.state,
    {
        self.state
    }

    /// The version agreed on, once the handshake is done.
    pub fn version(&self) -> (res: Option<(u64, u64)>)
        ensures
            res == self@.version,
    {
        self.version
    }

    /// The longest frame body that the session accepts and sends.
    pub fn max_frame_size(&self) -> (res: u32)
        ensures
            res == self@.max_frame_size,
    {
        self.max_frame_size
    }

    /// Whether both peers announced pipelining.
    pub fn pipelining(&self) -> (res: bool)
        ensures
            res == self@.pipelining,
    {
        self.pipelining
    }

    /// The number of NOTIFY frames whose handlers have not finished.
    pub fn pending(&self) -> (res: usize)
        ensures
            res == self@.pending.len(),
    {
        self.pending.len()
    }

    /// The number of bytes that wait for the rest of their frame.
    pub fn buffered(&self) -> (res: usize)
        ensures
            res == self@.inbound.len(),
    {
        crate::codec::buffer_as_slice(&self.inbound).len()
    }

    /// The codec for the frames that the session sends: it refuses frames
    /// that are longer than the peers agreed on.
    pub fn codec(&self) -> (res: SpopCodec)
        ensures
            res.max_frame_size == self@.max_frame_size,
    {
        SpopCodec::with_max_frame_size(self.max_frame_size)
    }

    fn is_pending(&self, stream_id: u64, frame_id: u64) -> (res: bool)
        ensures
            res == self@.pending.contains((stream_id, frame_id)),
    {
        let mut i: usize = 0;
        while i < self.pending.len()
            invariant
                0 <= i <= self.pending@.len(),
                forall|k: int| 0 <= k < i ==> self.pending@[k] != (stream_id, frame_id),
            decreases self.pending@.len() - i,
        {
            let entry = self.pending[i];
            if entry.0 == stream_id && entry.1 == frame_id {
                return true;
            }
            i = i + 1;
        }
        false
    }

    fn forget(&mut self, stream_id: u64, frame_id: u64)
        ensures
            final(self)@ == (SessionView {
                pending: spec_without(old(self)@.pending, (stream_id, frame_id)),
                ..old(self)@
            }),
    {
        let mut kept: Vec<(u64, u64)> = Vec::new();
        let mut i: usize = 0;
        assert(self.pending@.take(0) =~= Seq::<(u64, u64)>::empty());
        while i < self.pending.len()
            invariant
                0 <= i <= self.pending@.len(),
                kept@ == spec_without(self.pending@.take(i as int), (stream_id, frame_id)),
            decreases self.pending@.len() - i,
        {
            let entry = self.pending[i];
            proof {
                let next = self.pending@.take(i + 1);
                assert(next.drop_last() =~= self.pending@.take(i as int));
                assert(next.last() == entry);
            }
            if !(entry.0 == stream_id && entry.1 == frame_id) {
                kept.push(entry);
            }
            i = i + 1;
        }
        assert(self.pending@.take(i as int) =~= self.pending@);
        self.pending = kept;
    }

    fn refuse(&mut self, error: ProtocolError) -> (res: Outcome)
        ensures
            (final(self)@, res@) == spec_refuse(old(self)@, error@),
    {
        let disconnect = AgentDisconnect {
            status_code: error.status_code(),
            message: error.to_string(),
        };
        self.state = SessionState::Draining;
        self.pending = Vec::new();
        Outcome { effect: Effect::Send(disconnect.to_frame()), error: Some(error) }
    }

    fn on_hello(&mut self, payload: FramePayload) -> (res: Outcome)
        ensures
            (final(self)@, res@) == spec_on_hello(old(self)@, payload@),
    {
        let hello = match HaproxyHello::try_from(payload) {
            Ok(h) => h,
            Err(e) => {
                return self.refuse(e);
            },
        };
        if hello.max_frame_size < MIN_FRAME_SIZE {
            return self.refuse(ProtocolError::InvalidFrameSize(hello.max_frame_size));
        }
        let (major, minor) = match select_version(
            &hello.supported_versions,
            &self.config.supported_versions,
        ) {
            Some(v) => v,
            None => {
                return self.refuse(ProtocolError::VersionMismatch);
            },
        };
        let max_frame_size = if hello.max_frame_size < self.config.max_frame_size {
            hello.max_frame_size
        } else {
            self.config.max_frame_size
        };
        let mut capabilities: Vec<FrameCapabilities> = Vec::new();
        if has_capability(&self.config.capabilities, FrameCapabilities::Pipelining)
            && has_capability(&hello.capabilities, FrameCapabilities::Pipelining) {
            capabilities.push(FrameCapabilities::Pipelining);
        }
        assert(capabilities@ =~= spec_common_capabilities(
            self.config.capabilities@,
            hello.capabilities@,
        ));
        let version = Version::new(major, minor, 0).to_text();
        let pipelining = capabilities.len() > 0;
        let reply = AgentHello {
            version: text_from_chars(version.as_slice()),
            max_frame_size,
            capabilities,
        };
        self.state = match hello.healthcheck {
            Some(true) => SessionState::Closed,
            _ => SessionState::Established,
        };
        self.version = Some((major, minor));
        self.max_frame_size = max_frame_size;
        self.pipelining = pipelining;
        Outcome { effect: Effect::Send(reply.to_frame()), error: None }
    }

    /// Acts on a frame that arrived.
    pub fn on_frame(&mut self, frame: Frame) -> (res: Outcome)
        ensures
            (final(self)@, res@) == spec_on_frame(old(self)@, frame@),
    {
        let (frame_type, metadata, payload) = frame.into_parts();
        match self.state {
            SessionState::AwaitHello => match frame_type {
                FrameType::HaproxyHello => self.on_hello(payload),
                _ => self.refuse(
                    ProtocolError::UnexpectedFrame(SessionState::AwaitHello, frame_type),
                ),
            },
            SessionState::Established => match frame_type {
                FrameType::Notify => {
                    let stream_id = metadata.stream_id;
                    let frame_id = metadata.frame_id;
                    if (!self.pipelining && self.pending.len() > 0) || self.is_pending(
                        stream_id,
                        frame_id,
                    ) {
                        return self.refuse(
                            ProtocolError::UnexpectedFrame(
                                SessionState::Established,
                                FrameType::Notify,
                            ),
                        );
                    }
                    let messages = match payload {
                        FramePayload::ListOfMessages(messages) => messages,
                        _ => {
                            let none: Vec<Message> = Vec::new();
                            assert(messages_view(none@) =~= Seq::<MessageView>::empty());
                            none
                        },
                    };
                    self.pending.push((stream_id, frame_id));
                    Outcome {
                        effect: Effect::Dispatch { stream_id, frame_id, messages },
                        error: None,
                    }
                },
                FrameType::HaproxyDisconnect => match disconnect_from_payload(&payload) {
                    Ok((status_code, message)) => {
                        let reply = AgentDisconnect { status_code, message };
                        self.state = SessionState::Draining;
                        self.pending = Vec::new();
                        Outcome { effect: Effect::Send(reply.to_frame()), error: None }
                    },
                    Err(e) => self.refuse(e),
                },
                _ => self.refuse(
                    ProtocolError::UnexpectedFrame(SessionState::Established, frame_type),
                ),
            },
            state => Outcome {
                effect: Effect::Nothing,
                error: Some(ProtocolError::UnexpectedFrame(state, frame_type)),
            },
        }
    }

    /// Acts on a frame that could not be read.
    pub fn on_error(&mut self, error: ProtocolError) -> (res: Outcome)
        ensures
            (final(self)@, res@) == spec_on_error(old(self)@, error@),
    {
        match self.state {
            SessionState::Draining | SessionState::Closed => {
                return Outcome { effect: Effect::Nothing, error: Some(error) };
            },
            _ => {},
        }
        match error {
            ProtocolError::NeedMore => Outcome { effect: Effect::Nothing, error: None },
            ProtocolError::AbortRequested { stream_id, frame_id } => {
                match self.state {
                    SessionState::Established => {
                        if self.is_pending(stream_id, frame_id) {
                            self.forget(stream_id, frame_id);
                            Outcome {
                                effect: Effect::Cancel { stream_id, frame_id },
                                error: None,
                            }
                        } else {
                            Outcome { effect: Effect::Nothing, error: None }
                        }
                    },
                    _ => self.refuse(ProtocolError::AbortRequested { stream_id, frame_id }),
                }
            },
            other => self.refuse(other),
        }
    }

    /// Acts on the end of the handler that ran for the NOTIFY with the given
    /// identifiers.
    pub fn on_handler_done(&mut self, stream_id: u64, frame_id: u64, result: HandlerResult) -> (res:
        Outcome)
        ensures
            (final(self)@, res@) == spec_on_handler_done(
                old(self)@,
                stream_id,
                frame_id,
                result@,
            ),
    {
        let established = match self.state {
            SessionState::Established => true,
            _ => false,
        };
        if !(established && self.is_pending(stream_id, frame_id)) {
            return Outcome { effect: Effect::Nothing, error: None };
        }
        match result {
            HandlerResult::Actions(actions) => {
                self.forget(stream_id, frame_id);
                let ack = Ack { stream_id, frame_id, actions };
                Outcome { effect: Effect::Send(ack.to_frame()), error: None }
            },
            HandlerResult::Failed => {
                self.forget(stream_id, frame_id);
                let ack = Ack::new(stream_id, frame_id);
                Outcome {
                    effect: Effect::Send(ack.to_frame()),
                    error: Some(ProtocolError::HandlerFailed),
                }
            },
            HandlerResult::Terminate => self.refuse(ProtocolError::HandlerFailed),
        }
    }

    /// Takes in bytes that arrived, reads every frame that is all there, and
    /// acts on each.  Returns the answers in the order of the frames.  Bytes
    /// that do not yet make a whole frame wait for the next call.
    #[verifier::rlimit(40)]
    pub fn feed_bytes(&mut self, data: &[u8]) -> (res: Vec<Outcome>)
        requires
            old(self)@.inbound.len() + data@.len() <= isize::MAX,
        ensures
            (final(self)@, outcomes_view(res@)) == spec_feed(old(self)@, data@),
    {
        let ghost target = spec_feed(self@, data@);
        buffer_put_slice(&mut self.inbound, data);
        let mut outcomes: Vec<Outcome> = Vec::new();
        let mut done = false;
        assert(outcomes_view(outcomes@) =~= Seq::<OutcomeView>::empty());
        assert(Seq::<OutcomeView>::empty() + spec_drain(self@).1 =~= spec_drain(self@).1);
        while !done
            invariant
                target == (spec_drain(self@).0, outcomes_view(outcomes@) + spec_drain(self@).1),
                done ==> spec_drain(self@) == (self@, Seq::<OutcomeView>::empty()),
            decreases self@.inbound.len() + (if done { 0int } else { 1int }),
        {
            let ghost before = self@;
            let ghost seen = outcomes_view(outcomes@);
            proof {
                lemma_decode_frame_consumed(before.inbound, before.max_frame_size);
            }
            let accepting = match self.state {
                SessionState::AwaitHello | SessionState::Established => true,
                _ => false,
            };
            if !accepting {
                done = true;
            } else {
                let codec = SpopCodec::with_max_frame_size(self.max_frame_size);
                match codec.decode(&mut self.inbound) {
                    Ok(None) => {
                        done = true;
                    },
                    Ok(Some(frame)) => {
                        let outcome = self.on_frame(frame);
                        proof {
                            let rest = spec_drain(self@).1;
                            assert(outcomes_view(outcomes@.push(outcome)) =~= seen.push(outcome@));
                            assert(seen.push(outcome@) + rest =~= seen + (seq![outcome@] + rest));
                        }
                        outcomes.push(outcome);
                    },
                    Err(error) => {
                        let skipped = match error {
                            ProtocolError::AbortRequested { .. } => true,
                            _ => false,
                        };
                        let outcome = self.on_error(error);
                        proof {
                            let rest = spec_drain(self@).1;
                            assert(outcomes_view(outcomes@.push(outcome)) =~= seen.push(outcome@));
                            assert(seen.push(outcome@) + rest =~= seen + (seq![outcome@] + rest));
                            if !skipped {
                                assert(rest =~= Seq::<OutcomeView>::empty());
                                assert(seen.push(outcome@) + rest =~= seen + seq![outcome@]);
                            }
                        }
                        outcomes.push(outcome);
                        if !skipped {
                            done = true;
                        }
                    },
                }
            }
        }
        proof {
            assert(outcomes_view(outcomes@) + Seq::<OutcomeView>::empty() =~= outcomes_view(
                outcomes@,
            ));
        }
        outcomes
    }

    /// Acts on the writer having sent everything: a session that was
    /// draining is closed.
    pub fn on_drained(&mut self)
        ensures
            final(self)@ == spec_on_drained(old(self)@),
    {
        match self.state {
            SessionState::Draining => {
                self.state = SessionState::Closed;
            },
            _ => {},
        }
    }
}

/// Taking an entry out of a list keeps every other entry and adds none.
pub proof fn lemma_without_keeps(pending: Seq<(u64, u64)>, key: (u64, u64), other: (u64, u64))
    ensures
        spec_without(pending, key).contains(other) <==> (other != key && pending.contains(other)),
    decreases pending.len(),
{
    let after = spec_without(pending, key);
    if pending.len() > 0 {
        let init = pending.drop_last();
        let last = pending.last();
        let before = spec_without(init, key);
        lemma_without_keeps(init, key, other);
        if after.contains(other) {
            let j = choose|j: int| 0 <= j < after.len() && after[j] == other;
            if j < before.len() {
                assert(before[j] == other);
                assert(before.contains(other));
                let i = choose|i: int| 0 <= i < init.len() && init[i] == other;
                assert(pending[i] == other);
            } else {
                assert(pending[pending.len() - 1] == other);
            }
        }
        if other != key && pending.contains(other) {
            let i = choose|i: int| 0 <= i < pending.len() && pending[i] == other;
            if i < init.len() {
                assert(init[i] == other);
                assert(init.contains(other));
                let j = choose|j: int| 0 <= j < before.len() && before[j] == other;
                assert(after[j] == other);
            } else {
                assert(after[after.len() - 1] == other);
            }
        }
    }
}

/// Taking an entry out of a list without repetitions leaves a list without
/// repetitions that is no longer and does not hold the entry.
pub proof fn lemma_without(pending: Seq<(u64, u64)>, key: (u64, u64))
    requires
        pending.no_duplicates(),
    ensures
        spec_without(pending, key).no_duplicates(),
        !spec_without(pending, key).contains(key),
        spec_without(pending, key).len() <= pending.len(),
    decreases pending.len(),
{
    lemma_without_keeps(pending, key, key);
    if pending.len() > 0 {
        let init = pending.drop_last();
        let last = pending.last();
        lemma_without(init, key);
        let before = spec_without(init, key);
        let after = spec_without(pending, key);
        if last != key {
            lemma_without_keeps(init, key, last);
            if init.contains(last) {
                let i = choose|i: int| 0 <= i < init.len() && init[i] == last;
                assert(pending[i] == pending[pending.len() - 1]);
            }
            assert forall|i: int, j: int| 0 <= i < after.len() && 0 <= j < after.len() && i
                != j implies after[i] != after[j] by {
                if i == after.len() - 1 {
                    assert(before[j] == after[j]);
                    assert(before.contains(after[j]));
                } else if j == after.len() - 1 {
                    assert(before[i] == after[i]);
                    assert(before.contains(after[i]));
                } else {
                    assert(before[i] == after[i] && before[j] == after[j]);
                }
            }
        }
    }
}

/// **The session invariant holds for good: frames.**  Whatever frame
/// arrives, a session for which [`session_inv`] holds is left in a state for
/// which it holds.
pub proof fn lemma_frame_keeps_invariant(s: SessionView, f: FrameView)
    requires
        session_inv(s),
    ensures
        session_inv(spec_on_frame(s, f).0),
{
    let key = (f.metadata.stream_id, f.metadata.frame_id);
    if !s.pending.contains(key) {
        let grown = s.pending.push(key);
        assert forall|i: int, j: int| 0 <= i < grown.len() && 0 <= j < grown.len() && i
            != j implies grown[i] != grown[j] by {
            if i == s.pending.len() {
                assert(s.pending[j] == grown[j]);
                assert(s.pending.contains(grown[j]));
            } else if j == s.pending.len() {
                assert(s.pending[i] == grown[i]);
                assert(s.pending.contains(grown[i]));
            }
        }
    }
}

/// **The session invariant holds for good: errors.**  Whatever error the
/// reader reports, a session for which [`session_inv`] holds is left in a
/// state for which it holds.
pub proof fn lemma_error_keeps_invariant(s: SessionView, e: ErrorView)
    requires
        session_inv(s),
    ensures
        session_inv(spec_on_error(s, e).0),
{
    if let ErrorView::AbortRequested { stream_id, frame_id } = e {
        lemma_without(s.pending, (stream_id, frame_id));
    }
}

/// **The session invariant holds for good: handlers.**  However a handler
/// ends, and when the writer runs dry, a session for which [`session_inv`]
/// holds is left in a state for which it holds.
pub proof fn lemma_handler_keeps_invariant(
    s: SessionView,
    stream_id: u64,
    frame_id: u64,
    result: HandlerResultView,
)
    requires
        session_inv(s),
    ensures
        session_inv(spec_on_handler_done(s, stream_id, frame_id, result).0),
        session_inv(spec_on_drained(s)),
{
    lemma_without(s.pending, (stream_id, frame_id));
}

/// **One answer per NOTIFY, under its own identifiers.**  When the handler
/// of a pending NOTIFY ends without asking for the connection to be closed,
/// the session answers with an ACK that carries the identifiers of that
/// NOTIFY, stays established, and no longer counts the NOTIFY as pending; a
/// second report for the same identifiers is answered with nothing.
pub proof fn lemma_ack_is_correlated(
    s: SessionView,
    stream_id: u64,
    frame_id: u64,
    result: HandlerResultView,
)
    requires
        session_inv(s),
        s.state == SessionState::Established,
        s.pending.contains((stream_id, frame_id)),
        !(result is Terminate),
    ensures
        ({
            let (next, outcome) = spec_on_handler_done(s, stream_id, frame_id, result);
            &&& outcome.effect matches EffectView::Send(ack) && ack.frame_type == FrameType::Ack
                && ack.metadata.stream_id == stream_id && ack.metadata.frame_id == frame_id
            &&& next.state == SessionState::Established
            &&& !next.pending.contains((stream_id, frame_id))
            &&& spec_on_handler_done(next, stream_id, frame_id, result).1.effect
                == EffectView::Nothing
        }),
{
    lemma_without(s.pending, (stream_id, frame_id));
}

/// **ABORT.**  In an established session a frame that carries ABORT leaves
/// the session established, is answered with no frame, and takes the NOTIFY
/// it names out of the pending ones, if it was among them.
pub proof fn lemma_abort_keeps_session(s: SessionView, stream_id: u64, frame_id: u64)
    requires
        session_inv(s),
        s.state == SessionState::Established,
    ensures
        ({
            let (next, outcome) = spec_on_error(
                s,
                ErrorView::AbortRequested { stream_id, frame_id },
            );
            &&& next.state == SessionState::Established
            &&& !(outcome.effect is Send)
            &&& outcome.error is None
            &&& !next.pending.contains((stream_id, frame_id))
            &&& (outcome.effect is Cancel <==> s.pending.contains((stream_id, frame_id)))
        }),
{
    lemma_without(s.pending, (stream_id, frame_id));
}

/// **Lockstep without pipelining.**  In an established session without
/// pipelining, a NOTIFY that arrives while another is pending is refused:
/// the error is `UnexpectedFrame`, the answer is an AGENT-DISCONNECT whose
/// status code is not zero, and the session accepts nothing more.
pub proof fn lemma_lockstep(s: SessionView, f: FrameView)
    requires
        s.state == SessionState::Established,
        !s.pipelining,
        s.pending.len() > 0,
        f.frame_type == FrameType::Notify,
    ensures
        ({
            let (next, outcome) = spec_on_frame(s, f);
            &&& next.state == SessionState::Draining
            &&& outcome.error == Some(
                ErrorView::UnexpectedFrame(SessionState::Established, FrameType::Notify),
            )
            &&& outcome.effect == EffectView::Send(
                spec_agent_disconnect_frame(
                    DisconnectView {
                        status_code: crate::error::STATUS_INTERLACED,
                        message: "invalid frame received"@,
                    },
                ),
            )
        }),
{
}

/// An error other than ABORT and `NeedMore` makes an accepting session stop
/// accepting.
pub proof fn lemma_error_ends_session(s: SessionView, e: ErrorView)
    requires
        spec_accepting(s),
        e != ErrorView::NeedMore,
        !(e is AbortRequested),
    ensures
        !spec_accepting(spec_on_error(s, e).0),
{
}

/// **Reading keeps the invariant.**  A session for which [`session_inv`]
/// holds is left by [`spec_drain`], and so by [`spec_feed`], in a state for
/// which it holds.
pub proof fn lemma_drain_keeps_invariant(s: SessionView)
    requires
        session_inv(s),
    ensures
        session_inv(spec_drain(s).0),
    decreases s.inbound.len(),
{
    if spec_accepting(s) {
        lemma_decode_frame_consumed(s.inbound, s.max_frame_size);
        let taken = spec_decode_advance(s.inbound, s.max_frame_size);
        let after = spec_with_inbound(s, s.inbound.skip(taken as int));
        match spec_decode_frame(s.inbound, s.max_frame_size) {
            Err(ErrorView::NeedMore) => {},
            Ok((f, _)) => {
                lemma_frame_keeps_invariant(after, f);
                lemma_frame_ignores_inbound(s, after.inbound, f);
                lemma_drain_keeps_invariant(spec_on_frame(after, f).0);
            },
            Err(e) => {
                lemma_error_keeps_invariant(after, e);
                lemma_error_ignores_inbound(s, after.inbound, e);
                if taken > 0 {
                    lemma_drain_keeps_invariant(spec_on_error(after, e).0);
                }
            },
        }
    }
}

/// Reading what waits, then reading again once `more` has arrived, comes to
/// reading everything at once.
#[verifier::rlimit(40)]
pub proof fn lemma_drain_chunked(s: SessionView, more: Seq<u8>)
    ensures
        ({
            let (first, outcomes) = spec_drain(s);
            let (last, later) = spec_drain(spec_with_inbound(first, first.inbound + more));
            spec_drain(spec_with_inbound(s, s.inbound + more)) == (last, outcomes + later)
        }),
    decreases s.inbound.len(),
{
    let whole = spec_with_inbound(s, s.inbound + more);
    let (first, outcomes) = spec_drain(s);
    let (last, later) = spec_drain(spec_with_inbound(first, first.inbound + more));
    let none = Seq::<OutcomeView>::empty();
    if !spec_accepting(s) {
        assert(none + none =~= none);
    } else {
        let limit = s.max_frame_size;
        lemma_decode_frame_consumed(s.inbound, limit);
        let taken = spec_decode_advance(s.inbound, limit);
        let rest = s.inbound.skip(taken as int);
        let after = spec_with_inbound(s, rest);
        match spec_decode_frame(s.inbound, limit) {
            Err(ErrorView::NeedMore) => {
                assert(none + later =~= later);
            },
            Ok((f, n)) => {
                crate::roundtrip::lemma_decode_frame_stable(s.inbound, more, limit);
                assert((s.inbound + more).skip(taken as int) =~= rest + more);
                let next = spec_on_frame(after, f).0;
                let outcome = spec_on_frame(after, f).1;
                lemma_frame_ignores_inbound(s, rest, f);
                lemma_frame_ignores_inbound(s, rest + more, f);
                lemma_drain_chunked(next, more);
                let tail = spec_drain(next).1;
                assert(seq![outcome] + (tail + later) =~= (seq![outcome] + tail) + later);
            },
            Err(e) => {
                crate::roundtrip::lemma_decode_frame_stable(s.inbound, more, limit);
                assert((s.inbound + more).skip(taken as int) =~= rest + more);
                let next = spec_on_error(after, e).0;
                let outcome = spec_on_error(after, e).1;
                lemma_error_ignores_inbound(s, rest, e);
                lemma_error_ignores_inbound(s, rest + more, e);
                if taken > 0 {
                    lemma_drain_chunked(next, more);
                    let tail = spec_drain(next).1;
                    assert(seq![outcome] + (tail + later) =~= (seq![outcome] + tail) + later);
                } else {
                    lemma_error_ends_session(after, e);
                    assert(seq![outcome] + none =~= seq![outcome]);
                    assert(s.inbound.skip(0) =~= s.inbound);
                    assert((s.inbound + more).skip(0) =~= s.inbound + more);
                }
            },
        }
    }
}

/// **Streaming.**  However a byte stream is cut into pieces, feeding the
/// pieces one after the other leaves the session where feeding the whole
/// stream at once leaves it, with the same answers in the same order.  This
/// is the case of two pieces; any cut follows by repetition.
pub proof fn lemma_feed_chunked(s: SessionView, a: Seq<u8>, b: Seq<u8>)
    ensures
        ({
            let (first, outcomes) = spec_feed(s, a);
            let (last, later) = spec_feed(first, b);
            spec_feed(s, a + b) == (last, outcomes + later)
        }),
{
    let start = spec_with_inbound(s, s.inbound + a);
    lemma_drain_chunked(start, b);
    assert((s.inbound + a) + b =~= s.inbound + (a + b));
}

/// Feeds the session a stream that arrives in pieces, one piece after the
/// other, and gathers its answers.
pub open spec fn spec_feed_all(s: SessionView, chunks: Seq<Seq<u8>>) -> (
    SessionView,
    Seq<OutcomeView>,
)
    decreases chunks.len(),
{
    if chunks.len() == 0 {
        (s, Seq::empty())
    } else {
        let (mid, before) = spec_feed_all(s, chunks.drop_last());
        let (last, after) = spec_feed(mid, chunks.last());
        (last, before + after)
    }
}

/// **Streaming, any chunking.**  A session that has read what it could is
/// left by a stream that arrives in pieces exactly where the same stream
/// arriving in one piece leaves it, and gives the same answers in the same
/// order.
pub proof fn lemma_feed_any_chunking(s: SessionView, chunks: Seq<Seq<u8>>)
    requires
        spec_drain(s) == (s, Seq::<OutcomeView>::empty()),
    ensures
        spec_feed_all(s, chunks) == spec_feed(s, chunks.flatten()),
    decreases chunks.len(),
{
    if chunks.len() == 0 {
        assert(chunks.flatten() =~= Seq::<u8>::empty());
        assert(s.inbound + Seq::<u8>::empty() =~= s.inbound);
    } else {
        let init = chunks.drop_last();
        lemma_feed_any_chunking(s, init);
        init.lemma_flatten_push(chunks.last());
        assert(init.push(chunks.last()) =~= chunks);
        lemma_feed_chunked(s, init.flatten(), chunks.last());
    }
}

/// **Giving up is said aloud.**  When a session gives up, it stops accepting
/// frames, reports the error to its owner, and answers the peer with a
/// well-formed AGENT-DISCONNECT whose status code is not the one for "no
/// error".  This is what every error other than ABORT and `NeedMore` leads
/// to in a session that accepts frames.
pub proof fn lemma_refusal_is_reported(s: SessionView, e: ErrorView)
    ensures
        ({
            let (next, outcome) = spec_refuse(s, e);
            &&& next.state == SessionState::Draining
            &&& outcome.error == Some(e)
            &&& outcome.effect matches EffectView::Send(reply) && reply.frame_type
                == FrameType::AgentDisconnect && crate::frame::wf_frame(reply)
            &&& spec_status_of(e) != crate::error::STATUS_NORMAL
        }),
        spec_accepting(s) && e != ErrorView::NeedMore && !(e is AbortRequested) ==> spec_on_error(
            s,
            e,
        ) == spec_refuse(s, e),
{
    crate::frames::haproxy_disconnect::lemma_disconnect_kv_wf(
        DisconnectView { status_code: spec_status_of(e), message: spec_describe(e) },
        FrameType::AgentDisconnect,
    );
}

/// **What a handshake settles.**  When the answer to a hello leaves the
/// session established or, after a health check, closed, then the version
/// agreed on is one that both peers offer and no common version is newer,
/// the frame size in force is the smaller of the two announced and at least
/// 256, and pipelining is on exactly if both peers announced it.
pub proof fn lemma_handshake(s: SessionView, payload: PayloadView)
    requires
        s.config.max_frame_size >= MIN_FRAME_SIZE,
        spec_on_hello(s, payload).0.state != SessionState::Draining,
    ensures
        ({
            let next = spec_on_hello(s, payload).0;
            let hello = spec_hello_of(payload)->Ok_0;
            &&& spec_hello_of(payload) is Ok
            &&& crate::frames::version::is_selection(
                hello.supported_versions,
                s.config.supported_versions,
                next.version,
            )
            &&& next.version is Some
            &&& next.max_frame_size >= MIN_FRAME_SIZE
            &&& next.max_frame_size <= hello.max_frame_size
            &&& next.max_frame_size <= s.config.max_frame_size
            &&& (next.max_frame_size == hello.max_frame_size || next.max_frame_size
                == s.config.max_frame_size)
            &&& next.pipelining == (s.config.capabilities.contains(FrameCapabilities::Pipelining)
                && hello.capabilities.contains(FrameCapabilities::Pipelining))
            &&& (next.state == SessionState::Closed <==> hello.healthcheck == Some(true))
            &&& (next.state == SessionState::Established <==> hello.healthcheck != Some(true))
            &&& spec_on_hello(s, payload).1.error is None
        }),
{
    if let Ok(hello) = spec_hello_of(payload) {
        crate::frames::version::lemma_select_is_selection(
            hello.supported_versions,
            s.config.supported_versions,
        );
    }
}

} // verus!
