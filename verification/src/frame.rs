//! The frame model: type, flags, metadata and the three payload shapes.

use vstd::prelude::*;
use crate::actions::{actions_view, clone_actions, Action, ActionView};
use crate::error::{ErrorView, ProtocolError};
use crate::kv::{distinct_keys, spec_get, KvList, KvView};
use crate::text::append_bytes;
use crate::types::{TypedData, TypedDataView};
use crate::varint::{encode_varint, spec_encode_varint};

verus! {

/// The six frame kinds and their wire identifiers.
#[derive(Debug, Clone, Copy, PartialEq, Eq, Structural)]
pub enum FrameType {
    /// Identifier 1: first frame sent by the load balancer.
    HaproxyHello,
    /// Identifier 2: the load balancer is closing the connection.
    HaproxyDisconnect,
    /// Identifier 3: messages for the agent to process.
    Notify,
    /// Identifier 101: the agent's reply to a HAPROXY-HELLO.
    AgentHello,
    /// Identifier 102: the agent is closing the connection.
    AgentDisconnect,
    /// Identifier 103: the agent's reply to a NOTIFY.
    Ack,
}

impl FrameType {
    /// The wire identifier of the frame type.
    pub open spec fn spec_to_u8(self) -> u8 {
        match self {
            FrameType::HaproxyHello => 1,
            FrameType::HaproxyDisconnect => 2,
            FrameType::Notify => 3,
            FrameType::AgentHello => 101,
            FrameType::AgentDisconnect => 102,
            FrameType::Ack => 103,
        }
    }

    /// The frame type with wire identifier `value`, if there is one.
    pub open spec fn spec_from_u8(value: u8) -> Option<FrameType> {
        if value == 1 {
            Some(FrameType::HaproxyHello)
        } else if value == 2 {
            Some(FrameType::HaproxyDisconnect)
        } else if value == 3 {
            Some(FrameType::Notify)
        } else if value == 101 {
            Some(FrameType::AgentHello)
        } else if value == 102 {
            Some(FrameType::AgentDisconnect)
        } else if value == 103 {
            Some(FrameType::Ack)
        } else {
            None
        }
    }

    /// Hello and disconnect frames, in either direction, carry a key/value list.
    pub open spec fn carries_kv_list(self) -> bool {
        self != FrameType::Notify && self != FrameType::Ack
    }

    /// Maps a wire identifier to its frame type.
    pub fn from_u8(value: u8) -> (res: Result<Self, ProtocolError>)
        ensures
            match res {
                Ok(t) => Self::spec_from_u8(value) == Some(t),
                Err(e) => Self::spec_from_u8(value) is None && e == ProtocolError::UnknownFrameType(
                    value,
                ),
            },
    {
        match value {
            1 => Ok(Self::HaproxyHello),
            2 => Ok(Self::HaproxyDisconnect),
            3 => Ok(Self::Notify),
            101 => Ok(Self::AgentHello),
            102 => Ok(Self::AgentDisconnect),
            103 => Ok(Self::Ack),
            _ => Err(ProtocolError::UnknownFrameType(value)),
        }
    }

    /// The wire identifier of the frame type.
    pub fn to_u8(&self) -> (res: u8)
        ensures
            res == self.spec_to_u8(),
    {
        match self {
            Self::HaproxyHello => 1,
            Self::HaproxyDisconnect => 2,
            Self::Notify => 3,
            Self::AgentHello => 101,
            Self::AgentDisconnect => 102,
            Self::Ack => 103,
        }
    }
}

/// The identifier of a frame type maps back to that type.
pub proof fn lemma_frame_type_roundtrip(t: FrameType)
    ensures
        FrameType::spec_from_u8(t.spec_to_u8()) == Some(t),
{
}

/// The four bytes of `x`, most significant first.
pub open spec fn spec_u32_be(x: u32) -> Seq<u8> {
    seq![
        (x / 0x100_0000) as u8,
        ((x / 0x1_0000) % 256) as u8,
        ((x / 0x100) % 256) as u8,
        (x % 256) as u8,
    ]
}

/// The number whose big-endian bytes are the first four of `s`.
pub open spec fn spec_u32_from_be(s: Seq<u8>) -> u32 {
    (s[0] * 0x100_0000 + s[1] * 0x1_0000 + s[2] * 0x100 + s[3]) as u32
}

/// Reading the big-endian bytes of a number gives the number back.
pub proof fn lemma_u32_be_roundtrip(x: u32)
    ensures
        spec_u32_from_be(spec_u32_be(x)) == x,
        spec_u32_be(x).len() == 4,
{
}

/// The big-endian bytes of `x`.
pub fn u32_to_be_bytes(x: u32) -> (out: [u8; 4])
    ensures
        out@ == spec_u32_be(x),
{
    let b0: u8 = (x >> 24) as u8;
    let b1: u8 = ((x >> 16) & 0xff) as u8;
    let b2: u8 = ((x >> 8) & 0xff) as u8;
    let b3: u8 = (x & 0xff) as u8;
    assert(x >> 24 == x / 0x100_0000) by (bit_vector);
    assert((x >> 16) & 0xff == (x / 0x1_0000) % 256) by (bit_vector);
    assert((x >> 8) & 0xff == (x / 0x100) % 256) by (bit_vector);
    assert(x & 0xff == x % 256) by (bit_vector);
    let out: [u8; 4] = [b0, b1, b2, b3];
    assert(out@ =~= spec_u32_be(x));
    out
}

/// The number whose big-endian bytes are the first four of `input`.
pub fn u32_from_be_bytes(input: &[u8]) -> (x: u32)
    requires
        input@.len() >= 4,
    ensures
        x == spec_u32_from_be(input@),
{
    let b0: u32 = input[0] as u32;
    let b1: u32 = input[1] as u32;
    let b2: u32 = input[2] as u32;
    let b3: u32 = input[3] as u32;
    b0 * 0x100_0000 + b1 * 0x1_0000 + b2 * 0x100 + b3
}

/// The 32-bit flag set of a frame.  Bit 0 is FIN, bit 1 is ABORT, the rest is
/// reserved.
#[derive(Debug, Clone, Copy, PartialEq, Eq)]
pub struct FrameFlags(pub u32);

impl Default for FrameFlags {
    /// The empty flag set.
    fn default() -> (res: Self)
        ensures
            res.0 == 0,
    {
        FrameFlags(0)
    }
}

impl FrameFlags {
    /// FIN is set.
    pub open spec fn spec_is_fin(self) -> bool {
        self.0 % 2 == 1
    }

    /// ABORT is set.
    pub open spec fn spec_is_abort(self) -> bool {
        (self.0 / 2) % 2 == 1
    }

    /// A flag set is valid on the wire when FIN is set and no reserved bit is.
    pub open spec fn spec_valid(self) -> bool {
        self.spec_is_fin() && self.0 < 4
    }

    /// The flag set with the given FIN and ABORT bits.
    pub fn new(is_fin: bool, is_abort: bool) -> (res: Self)
        ensures
            res.0 == (if is_fin { 1int } else { 0int }) + (if is_abort { 2int } else { 0int }),
            res.spec_is_fin() == is_fin,
            res.spec_is_abort() == is_abort,
    {
        let mut flags: u32 = 0u32;
        if is_fin {
            flags = flags + 1;
        }
        if is_abort {
            flags = flags + 2;
        }
        Self(flags)
    }

    /// Whether FIN is set.
    pub fn is_fin(&self) -> (res: bool)
        ensures
            res == self.spec_is_fin(),
    {
        let v: u32 = self.0;
        assert((v & 0x0000_0001u32 != 0) == (v % 2 == 1)) by (bit_vector);
        v & 0x0000_0001u32 != 0
    }

    /// Whether ABORT is set.
    pub fn is_abort(&self) -> (res: bool)
        ensures
            res == self.spec_is_abort(),
    {
        let v: u32 = self.0;
        assert((v & 0x0000_0002u32 != 0) == ((v / 2) % 2 == 1)) by (bit_vector);
        v & 0x0000_0002u32 != 0
    }

    /// Accepts the flag word of a received frame: FIN must be set and the
    /// reserved bits clear.
    pub fn from_u32(value: u32) -> (res: Result<Self, ProtocolError>)
        ensures
            match res {
                Ok(f) => f.0 == value && f.spec_valid(),
                Err(e) => !FrameFlags(value).spec_valid() && e == ProtocolError::InvalidFlags,
            },
    {
        assert((value & 0x0000_0001u32 == 0) == (value % 2 == 0)) by (bit_vector);
        assert((value & 0xFFFF_FFFCu32 != 0) == (value >= 4)) by (bit_vector);
        if value & 0x0000_0001 == 0 {
            return Err(ProtocolError::InvalidFlags);
        }
        if value & 0xFFFF_FFFC != 0 {
            return Err(ProtocolError::InvalidFlags);
        }
        Ok(Self(value))
    }

    /// The flag word in network byte order.
    pub fn to_be_bytes(&self) -> (out: [u8; 4])
        ensures
            out@ == spec_u32_be(self.0),
    {
        u32_to_be_bytes(self.0)
    }
}

/// What every frame carries after its type: the flags and the two
/// identifiers that pair a NOTIFY with its ACK.
#[derive(Debug, Clone, Copy, PartialEq, Eq)]
pub struct Metadata {
    pub flags: FrameFlags,
    pub stream_id: u64,
    pub frame_id: u64,
}

impl Default for Metadata {
    /// No flags and both identifiers zero.
    fn default() -> (res: Self)
        ensures
            res == (Metadata { flags: FrameFlags(0), stream_id: 0, frame_id: 0 }),
    {
        Metadata { flags: FrameFlags(0), stream_id: 0, frame_id: 0 }
    }
}

/// The wire form of the metadata.
pub open spec fn spec_encode_metadata(m: Metadata) -> Seq<u8> {
    spec_u32_be(m.flags.0) + spec_encode_varint(m.stream_id) + spec_encode_varint(m.frame_id)
}

impl Metadata {
    /// The wire form of the metadata: flags, stream identifier, frame identifier.
    pub fn serialize(&self) -> (out: Vec<u8>)
        ensures
            out@ == spec_encode_metadata(*self),
    {
        let mut serialized: Vec<u8> = Vec::new();
        let flags = self.flags.to_be_bytes();
        append_bytes(&mut serialized, flags.as_slice());
        let stream = encode_varint(self.stream_id);
        append_bytes(&mut serialized, stream.as_slice());
        let frame = encode_varint(self.frame_id);
        append_bytes(&mut serialized, frame.as_slice());
        assert(serialized@ =~= spec_encode_metadata(*self));
        serialized
    }
}

/// A named message of a NOTIFY frame, with its arguments.
#[derive(Debug, PartialEq, Eq)]
pub struct Message {
    pub name: String,
    pub args: KvList,
}

/// Mathematical counterpart of [`Message`].
pub struct MessageView {
    pub name: Seq<char>,
    pub args: KvView,
}

impl View for Message {
    type V = MessageView;

    open spec fn view(&self) -> MessageView {
        MessageView { name: self.name@, args: self.args@ }
    }
}

impl Clone for Message {
    fn clone(&self) -> (res: Self)
        ensures
            res@ == self@,
    {
        Message { name: self.name.clone(), args: self.args.clone() }
    }
}

/// The views of a vector of messages, in order.
pub open spec fn messages_view(v: Seq<Message>) -> Seq<MessageView> {
    v.map_values(|m: Message| m@)
}

/// Copies a list of messages.
pub fn clone_messages(messages: &Vec<Message>) -> (res: Vec<Message>)
    ensures
        messages_view(res@) == messages_view(messages@),
{
    let mut out: Vec<Message> = Vec::new();
    let mut i: usize = 0;
    while i < messages.len()
        invariant
            0 <= i <= messages@.len(),
            out@.len() == i,
            forall|k: int| 0 <= k < i ==> (#[trigger] out@[k])@ == messages@[k]@,
        decreases messages@.len() - i,
    {
        out.push(messages[i].clone());
        i = i + 1;
    }
    assert(messages_view(out@) =~= messages_view(messages@));
    out
}

/// What a frame carries after its metadata.
#[derive(Debug, PartialEq, Eq)]
pub enum FramePayload {
    /// The payload of a NOTIFY frame.
    ListOfMessages(Vec<Message>),
    /// The payload of an ACK frame.
    ListOfActions(Vec<Action>),
    /// The payload of hello and disconnect frames.
    KVList(KvList),
}

/// Mathematical counterpart of [`FramePayload`].
pub enum PayloadView {
    ListOfMessages(Seq<MessageView>),
    ListOfActions(Seq<ActionView>),
    KVList(KvView),
}

impl View for FramePayload {
    type V = PayloadView;

    open spec fn view(&self) -> PayloadView {
        match *self {
            FramePayload::ListOfMessages(v) => PayloadView::ListOfMessages(messages_view(v@)),
            FramePayload::ListOfActions(v) => PayloadView::ListOfActions(actions_view(v@)),
            FramePayload::KVList(l) => PayloadView::KVList(l@),
        }
    }
}

impl Clone for FramePayload {
    fn clone(&self) -> (res: Self)
        ensures
            res@ == self@,
    {
        match self {
            FramePayload::ListOfMessages(v) => FramePayload::ListOfMessages(clone_messages(v)),
            FramePayload::ListOfActions(v) => FramePayload::ListOfActions(clone_actions(v)),
            FramePayload::KVList(l) => FramePayload::KVList(l.clone()),
        }
    }
}

/// Mathematical counterpart of a frame.
pub struct FrameView {
    pub frame_type: FrameType,
    pub metadata: Metadata,
    pub payload: PayloadView,
}

/// What is wrong with the entry `key` of `l`, if anything: it must be present
/// and hold a string (`text`) or an unsigned 32-bit integer (otherwise).
pub open spec fn spec_check_key(l: KvView, key: Seq<char>, text: bool) -> Option<ErrorView> {
    match spec_get(l, key) {
        None => Some(ErrorView::MissingRequiredKey(key)),
        Some(TypedDataView::String(_)) => if text {
            None
        } else {
            Some(ErrorView::WrongTypeForKey(key))
        },
        Some(TypedDataView::UInt32(_)) => if text {
            Some(ErrorView::WrongTypeForKey(key))
        } else {
            None
        },
        Some(_) => Some(ErrorView::WrongTypeForKey(key)),
    }
}

/// The first of two checks that fails.
pub open spec fn first_error(a: Option<ErrorView>, b: Option<ErrorView>) -> Option<ErrorView> {
    if a is Some {
        a
    } else {
        b
    }
}

/// The first required entry of a frame of type `t` that `l` lacks or holds
/// with the wrong type.  Entries are looked at in the order in which the
/// protocol lists them.
pub open spec fn spec_check_required(t: FrameType, l: KvView) -> Option<ErrorView> {
    match t {
        FrameType::HaproxyHello => first_error(
            spec_check_key(l, "supported-versions"@, true),
            first_error(
                spec_check_key(l, "max-frame-size"@, false),
                spec_check_key(l, "capabilities"@, true),
            ),
        ),
        FrameType::AgentHello => first_error(
            spec_check_key(l, "version"@, true),
            first_error(
                spec_check_key(l, "max-frame-size"@, false),
                spec_check_key(l, "capabilities"@, true),
            ),
        ),
        FrameType::HaproxyDisconnect | FrameType::AgentDisconnect => first_error(
            spec_check_key(l, "status-code"@, false),
            spec_check_key(l, "message"@, true),
        ),
        _ => None,
    }
}

/// The payload has the shape that the frame type calls for.
pub open spec fn shape_matches(t: FrameType, p: PayloadView) -> bool {
    match p {
        PayloadView::KVList(_) => t.carries_kv_list(),
        PayloadView::ListOfMessages(_) => t == FrameType::Notify,
        PayloadView::ListOfActions(_) => t == FrameType::Ack,
    }
}

/// Every message has distinct argument keys and no more arguments than one
/// byte can count.
pub open spec fn wf_messages(ms: Seq<MessageView>) -> bool {
    forall|i: int|
        0 <= i < ms.len() ==> distinct_keys((#[trigger] ms[i]).args) && ms[i].args.len() <= 255
}

/// The payload is well formed for a frame of type `t`.
pub open spec fn wf_payload(t: FrameType, p: PayloadView) -> bool {
    &&& shape_matches(t, p)
    &&& match p {
        PayloadView::KVList(l) => distinct_keys(l) && spec_check_required(t, l) is None,
        PayloadView::ListOfMessages(ms) => wf_messages(ms),
        PayloadView::ListOfActions(_) => true,
    }
}

/// A frame is well formed when its flags are valid, its payload has the shape
/// and the entries that its type calls for, and, for hello and disconnect
/// frames, both identifiers are zero.
pub open spec fn wf_frame(f: FrameView) -> bool {
    &&& f.metadata.flags.spec_valid()
    &&& (f.frame_type.carries_kv_list() ==> f.metadata.stream_id == 0 && f.metadata.frame_id == 0)
    &&& wf_payload(f.frame_type, f.payload)
}

/// A message has more arguments than one byte can count.
pub open spec fn too_many_args(ms: Seq<MessageView>) -> bool {
    exists|i: int| 0 <= i < ms.len() && (#[trigger] ms[i]).args.len() > 255
}

/// Why a frame with these parts cannot be built, if it cannot: the first of
/// payload shape, flags, identifiers and payload contents that is at fault.
pub open spec fn spec_validate(f: FrameView) -> Option<ErrorView> {
    if !shape_matches(f.frame_type, f.payload) {
        Some(ErrorView::PayloadMismatch)
    } else if !f.metadata.flags.spec_valid() {
        Some(ErrorView::InvalidFlags)
    } else if f.frame_type.carries_kv_list() && (f.metadata.stream_id != 0 || f.metadata.frame_id
        != 0) {
        Some(ErrorView::NonZeroIds)
    } else {
        match f.payload {
            PayloadView::KVList(l) => spec_check_required(f.frame_type, l),
            PayloadView::ListOfMessages(ms) => if too_many_args(ms) {
                Some(ErrorView::TooManyArgs)
            } else {
                None
            },
            PayloadView::ListOfActions(_) => None,
        }
    }
}

/// Checks one required entry of `list`.
pub fn check_key(list: &KvList, key: &str, text: bool) -> (res: Option<ProtocolError>)
    ensures
        match res {
            Some(e) => spec_check_key(list@, key@, text) == Some(e@),
            None => spec_check_key(list@, key@, text) is None,
        },
{
    match list.get(key) {
        None => Some(ProtocolError::MissingRequiredKey(key.to_owned())),
        Some(TypedData::String(_)) => if text {
            None
        } else {
            Some(ProtocolError::WrongTypeForKey(key.to_owned()))
        },
        Some(TypedData::UInt32(_)) => if text {
            Some(ProtocolError::WrongTypeForKey(key.to_owned()))
        } else {
            None
        },
        Some(_) => Some(ProtocolError::WrongTypeForKey(key.to_owned())),
    }
}

/// The unsigned 32-bit integer stored under the required key `key`.
pub fn get_u32(list: &KvList, key: &str) -> (res: Result<u32, ProtocolError>)
    ensures
        match res {
            Ok(v) => spec_get(list@, key@) == Some(TypedDataView::UInt32(v)) && spec_check_key(
                list@,
                key@,
                false,
            ) is None,
            Err(e) => spec_check_key(list@, key@, false) == Some(e@),
        },
{
    match list.get(key) {
        None => Err(ProtocolError::MissingRequiredKey(key.to_owned())),
        Some(TypedData::UInt32(v)) => Ok(*v),
        Some(_) => Err(ProtocolError::WrongTypeForKey(key.to_owned())),
    }
}

/// The string stored under the required key `key`.
pub fn get_text<'a>(list: &'a KvList, key: &str) -> (res: Result<&'a String, ProtocolError>)
    ensures
        match res {
            Ok(v) => spec_get(list@, key@) == Some(TypedDataView::String(v@)) && spec_check_key(
                list@,
                key@,
                true,
            ) is None,
            Err(e) => spec_check_key(list@, key@, true) == Some(e@),
        },
{
    match list.get(key) {
        None => Err(ProtocolError::MissingRequiredKey(key.to_owned())),
        Some(TypedData::String(v)) => Ok(v),
        Some(_) => Err(ProtocolError::WrongTypeForKey(key.to_owned())),
    }
}

/// Checks that `list` holds the entries that a frame of type `frame_type`
/// requires, each with its type.
pub fn check_required(frame_type: FrameType, list: &KvList) -> (res: Option<ProtocolError>)
    ensures
        match res {
            Some(e) => spec_check_required(frame_type, list@) == Some(e@),
            None => spec_check_required(frame_type, list@) is None,
        },
{
    match frame_type {
        FrameType::HaproxyHello => {
            let first = check_key(list, "supported-versions", true);
            if first.is_some() {
                return first;
            }
            let second = check_key(list, "max-frame-size", false);
            if second.is_some() {
                return second;
            }
            check_key(list, "capabilities", true)
        },
        FrameType::AgentHello => {
            let first = check_key(list, "version", true);
            if first.is_some() {
                return first;
            }
            let second = check_key(list, "max-frame-size", false);
            if second.is_some() {
                return second;
            }
            check_key(list, "capabilities", true)
        },
        FrameType::HaproxyDisconnect | FrameType::AgentDisconnect => {
            let first = check_key(list, "status-code", false);
            if first.is_some() {
                return first;
            }
            check_key(list, "message", true)
        },
        _ => None,
    }
}

/// Checks that no message has more than 255 arguments.
pub fn check_messages(messages: &Vec<Message>) -> (ok: bool)
    ensures
        ok == !too_many_args(messages_view(messages@)),
        ok ==> wf_messages(messages_view(messages@)),
{
    let ghost ms = messages_view(messages@);
    let mut i: usize = 0;
    while i < messages.len()
        invariant
            0 <= i <= messages@.len(),
            ms == messages_view(messages@),
            forall|k: int|
                0 <= k < i ==> distinct_keys((#[trigger] ms[k]).args) && ms[k].args.len() <= 255,
        decreases messages@.len() - i,
    {
        messages[i].args.keys_are_distinct();
        if messages[i].args.len() > 255 {
            assert(ms[i as int].args.len() > 255);
            return false;
        }
        i = i + 1;
    }
    true
}

/// A well-formed frame: one of the six types, its metadata, and the payload
/// that the type calls for.
#[derive(Debug, PartialEq, Eq)]
pub struct Frame {
    pub(crate) frame_type: FrameType,
    pub(crate) metadata: Metadata,
    pub(crate) payload: FramePayload,
}

impl View for Frame {
    type V = FrameView;

    closed spec fn view(&self) -> FrameView {
        FrameView { frame_type: self.frame_type, metadata: self.metadata, payload: self.payload@ }
    }
}

impl Frame {
    /// Every frame is well formed.
    #[verifier::type_invariant]
    pub closed spec fn inv(&self) -> bool {
        wf_frame(self@)
    }

    /// Builds a frame from its parts, or says why the parts do not make one.
    pub fn new(frame_type: FrameType, metadata: Metadata, payload: FramePayload) -> (res: Result<
        Frame,
        ProtocolError,
    >)
        ensures
            match res {
                Ok(f) => f@ == (FrameView { frame_type, metadata, payload: payload@ }) && wf_frame(
                    f@,
                ) && spec_validate(f@) is None,
                Err(e) => spec_validate(FrameView { frame_type, metadata, payload: payload@ })
                    == Some(e@),
            },
    {
        let kv_type = match frame_type {
            FrameType::Notify | FrameType::Ack => false,
            _ => true,
        };
        let shape_ok = match &payload {
            FramePayload::KVList(_) => kv_type,
            FramePayload::ListOfMessages(_) => match frame_type {
                FrameType::Notify => true,
                _ => false,
            },
            FramePayload::ListOfActions(_) => match frame_type {
                FrameType::Ack => true,
                _ => false,
            },
        };
        if !shape_ok {
            return Err(ProtocolError::PayloadMismatch);
        }
        match FrameFlags::from_u32(metadata.flags.0) {
            Ok(_) => {},
            Err(e) => {
                return Err(e);
            },
        }
        if kv_type && (metadata.stream_id != 0 || metadata.frame_id != 0) {
            return Err(ProtocolError::NonZeroIds);
        }
        match &payload {
            FramePayload::KVList(list) => {
                list.keys_are_distinct();
                match check_required(frame_type, list) {
                    Some(e) => {
                        return Err(e);
                    },
                    None => {},
                }
            },
            FramePayload::ListOfMessages(messages) => {
                if !check_messages(messages) {
                    return Err(ProtocolError::TooManyArgs);
                }
            },
            FramePayload::ListOfActions(_) => {},
        }
        Ok(Frame { frame_type, metadata, payload })
    }

    /// Puts together parts that are known to make a well-formed frame.
    pub(crate) fn assemble(frame_type: FrameType, metadata: Metadata, payload: FramePayload) -> (res:
        Frame)
        requires
            wf_frame(FrameView { frame_type, metadata, payload: payload@ }),
        ensures
            res@ == (FrameView { frame_type, metadata, payload: payload@ }),
    {
        Frame { frame_type, metadata, payload }
    }

    /// The type of the frame.
    pub fn frame_type(&self) -> (res: &FrameType)
        ensures
            *res == self@.frame_type,
    {
        &self.frame_type
    }

    /// The metadata of the frame.
    pub fn metadata(&self) -> (res: Metadata)
        ensures
            res == self@.metadata,
    {
        self.metadata
    }

    /// A copy of the payload of the frame.
    pub fn payload(&self) -> (res: FramePayload)
        ensures
            res@ == self@.payload,
    {
        self.payload.clone()
    }

    /// The payload of the frame.
    pub fn payload_ref(&self) -> (res: &FramePayload)
        ensures
            res@ == self@.payload,
            wf_frame(self@),
    {
        proof {
            use_type_invariant(self);
        }
        &self.payload
    }

    /// Takes the frame apart.
    pub fn into_parts(self) -> (res: (FrameType, Metadata, FramePayload))
        ensures
            res.0 == self@.frame_type,
            res.1 == self@.metadata,
            res.2@ == self@.payload,
            wf_frame(self@),
    {
        proof {
            use_type_invariant(&self);
        }
        (self.frame_type, self.metadata, self.payload)
    }
}

impl crate::SpopFrame for Frame {
    open spec fn spec_frame_type(&self) -> FrameType {
        self@.frame_type
    }

    open spec fn spec_metadata(&self) -> Metadata {
        self@.metadata
    }

    open spec fn spec_payload(&self) -> PayloadView {
        self@.payload
    }

    fn frame_type(&self) -> (res: &FrameType) {
        &self.frame_type
    }

    fn metadata(&self) -> (res: Metadata) {
        self.metadata
    }

    fn payload(&self) -> (res: FramePayload) {
        self.payload.clone()
    }
}

impl Clone for Frame {
    fn clone(&self) -> (res: Self)
        ensures
            res@ == self@,
    {
        proof {
            use_type_invariant(self);
        }
        Frame {
            frame_type: self.frame_type,
            metadata: self.metadata,
            payload: self.payload.clone(),
        }
    }
}

} // verus!
