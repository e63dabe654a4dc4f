//! The wire form of payloads and frames, and the functions that write it.

use vstd::prelude::*;
use vstd::utf8::encode_utf8;
use crate::actions::{actions_view, Action, ActionView, ACTION_SET_VAR, ACTION_UNSET_VAR};
use crate::error::ProtocolError;
use crate::frame::{
    messages_view, spec_encode_metadata, spec_u32_be, too_many_args, u32_to_be_bytes, Frame,
    FrameFlags, FramePayload, FrameType, FrameView, Message, MessageView, Metadata, PayloadView,
};
use crate::text::append_bytes;
use crate::kv::{entries_view, pair_view, KvList, KvView};
use crate::types::{spec_encode_bytes, spec_encode_data, wf_data, write_bytes, TypedDataView};

verus! {

/// A name on the wire: the length of its UTF-8 form, then that form.
pub open spec fn spec_encode_name(name: Seq<char>) -> Seq<u8> {
    spec_encode_bytes(encode_utf8(name))
}

/// A key/value pair on the wire: the key as a name, then the value.
pub open spec fn spec_encode_pair(p: (Seq<char>, TypedDataView)) -> Seq<u8> {
    spec_encode_name(p.0) + spec_encode_data(p.1)
}

/// A key/value list on the wire: its pairs one after the other.
pub open spec fn spec_encode_kv_list(l: KvView) -> Seq<u8> {
    l.map_values(|p: (Seq<char>, TypedDataView)| spec_encode_pair(p)).flatten()
}

/// A message on the wire: its name, the number of its arguments in one byte,
/// then the arguments.
pub open spec fn spec_encode_message(m: MessageView) -> Seq<u8> {
    spec_encode_name(m.name) + seq![m.args.len() as u8] + spec_encode_kv_list(m.args)
}

/// A list of messages on the wire: the messages one after the other.
pub open spec fn spec_encode_messages(ms: Seq<MessageView>) -> Seq<u8> {
    ms.map_values(|m: MessageView| spec_encode_message(m)).flatten()
}

/// An action on the wire: its type, the number of its arguments, the scope,
/// the variable name and, for set-var, the value.
pub open spec fn spec_encode_action(a: ActionView) -> Seq<u8> {
    match a {
        ActionView::SetVar { scope, name, value } => seq![ACTION_SET_VAR, 3u8, scope.spec_to_u8()]
            + spec_encode_name(name) + spec_encode_data(value),
        ActionView::UnSetVar { scope, name } => seq![ACTION_UNSET_VAR, 2u8, scope.spec_to_u8()]
            + spec_encode_name(name),
    }
}

/// A list of actions on the wire: the actions one after the other.
pub open spec fn spec_encode_actions(acts: Seq<ActionView>) -> Seq<u8> {
    acts.map_values(|a: ActionView| spec_encode_action(a)).flatten()
}

/// A payload on the wire.
pub open spec fn spec_encode_payload(p: PayloadView) -> Seq<u8> {
    match p {
        PayloadView::KVList(l) => spec_encode_kv_list(l),
        PayloadView::ListOfMessages(ms) => spec_encode_messages(ms),
        PayloadView::ListOfActions(acts) => spec_encode_actions(acts),
    }
}

/// The body of a frame on the wire: type, metadata, payload.
pub open spec fn spec_encode_body(f: FrameView) -> Seq<u8> {
    seq![f.frame_type.spec_to_u8()] + spec_encode_metadata(f.metadata) + spec_encode_payload(
        f.payload,
    )
}

/// A frame on the wire: the length of its body in four bytes, then the body.
pub open spec fn spec_encode_frame(f: FrameView) -> Seq<u8> {
    spec_u32_be(spec_encode_body(f).len() as u32) + spec_encode_body(f)
}

/// The UTF-8 form of the name has a length that the wire can state.
pub open spec fn encodable_name(name: Seq<char>) -> bool {
    encode_utf8(name).len() <= u64::MAX
}

/// Every key and value of the list has a length that the wire can state.
pub open spec fn encodable_kv_list(l: KvView) -> bool {
    forall|i: int| 0 <= i < l.len() ==> encodable_name((#[trigger] l[i]).0) && wf_data(l[i].1)
}

/// The message's name and arguments have lengths that the wire can state.
pub open spec fn encodable_message(m: MessageView) -> bool {
    encodable_name(m.name) && encodable_kv_list(m.args)
}

/// The action's name and value have lengths that the wire can state.
pub open spec fn encodable_action(a: ActionView) -> bool {
    match a {
        ActionView::SetVar { scope, name, value } => encodable_name(name) && wf_data(value),
        ActionView::UnSetVar { scope, name } => encodable_name(name),
    }
}

/// Every length inside the payload is one that the wire can state.  This
/// holds of every payload that exists in memory.
pub open spec fn encodable_payload(p: PayloadView) -> bool {
    match p {
        PayloadView::KVList(l) => encodable_kv_list(l),
        PayloadView::ListOfMessages(ms) => forall|i: int|
            0 <= i < ms.len() ==> encodable_message(#[trigger] ms[i]),
        PayloadView::ListOfActions(acts) => forall|i: int|
            0 <= i < acts.len() ==> encodable_action(#[trigger] acts[i]),
    }
}

/// Appends the wire form of a name to `buf`.
pub fn write_name(buf: &mut Vec<u8>, name: &str)
    ensures
        final(buf)@ == old(buf)@ + spec_encode_name(name@),
        encodable_name(name@),
{
    write_bytes(buf, name.as_bytes());
}

/// Appends the wire form of a key/value list to `buf`.
pub fn write_kv_list(buf: &mut Vec<u8>, list: &KvList)
    ensures
        final(buf)@ == old(buf)@ + spec_encode_kv_list(list@),
        encodable_kv_list(list@),
{
    let entries = list.entries();
    let ghost encode = |p: (Seq<char>, TypedDataView)| spec_encode_pair(p);
    let mut i: usize = 0;
    assert(list@.take(0).map_values(encode) =~= Seq::<Seq<u8>>::empty());
    while i < entries.len()
        invariant
            0 <= i <= entries@.len(),
            entries_view(entries@) == list@,
            encode == |p: (Seq<char>, TypedDataView)| spec_encode_pair(p),
            buf@ == old(buf)@ + list@.take(i as int).map_values(encode).flatten(),
            forall|k: int|
                0 <= k < i ==> encodable_name((#[trigger] list@[k]).0) && wf_data(list@[k].1),
        decreases entries@.len() - i,
    {
        let ghost before = buf@;
        write_name(buf, entries[i].0.as_str());
        entries[i].1.to_bytes(buf);
        proof {
            let p = list@[i as int];
            assert(p == pair_view(entries@[i as int]));
            let done = list@.take(i as int).map_values(encode);
            assert(list@.take(i + 1).map_values(encode) =~= done.push(spec_encode_pair(p)));
            done.lemma_flatten_push(spec_encode_pair(p));
            assert(buf@ =~= before + spec_encode_pair(p));
        }
        i = i + 1;
    }
    assert(list@.take(i as int) =~= list@);
}

/// Appends the wire form of a list of messages to `buf`.  Nothing is written
/// if some message has more than 255 arguments.
pub fn write_messages(buf: &mut Vec<u8>, messages: &Vec<Message>) -> (res: Result<
    (),
    ProtocolError,
>)
    ensures
        match res {
            Ok(()) => !too_many_args(messages_view(messages@)) && final(buf)@ == old(buf)@
                + spec_encode_messages(messages_view(messages@)) && encodable_payload(
                PayloadView::ListOfMessages(messages_view(messages@)),
            ),
            Err(e) => too_many_args(messages_view(messages@)) && e == ProtocolError::TooManyArgs
                && final(buf)@ == old(buf)@,
        },
{
    let ghost ms = messages_view(messages@);
    let mut j: usize = 0;
    while j < messages.len()
        invariant
            0 <= j <= messages@.len(),
            ms == messages_view(messages@),
            forall|k: int| 0 <= k < j ==> (#[trigger] ms[k]).args.len() <= 255,
        decreases messages@.len() - j,
    {
        if messages[j].args.len() > 255 {
            assert(ms[j as int].args.len() > 255);
            return Err(ProtocolError::TooManyArgs);
        }
        j = j + 1;
    }
    let ghost encode = |m: MessageView| spec_encode_message(m);
    let mut i: usize = 0;
    assert(ms.take(0).map_values(encode) =~= Seq::<Seq<u8>>::empty());
    while i < messages.len()
        invariant
            0 <= i <= messages@.len(),
            ms == messages_view(messages@),
            forall|k: int| 0 <= k < ms.len() ==> (#[trigger] ms[k]).args.len() <= 255,
            encode == |m: MessageView| spec_encode_message(m),
            buf@ == old(buf)@ + ms.take(i as int).map_values(encode).flatten(),
            forall|k: int| 0 <= k < i ==> encodable_message(#[trigger] ms[k]),
        decreases messages@.len() - i,
    {
        let ghost before = buf@;
        let message = &messages[i];
        write_name(buf, message.name.as_str());
        buf.push(message.args.len() as u8);
        write_kv_list(buf, &message.args);
        proof {
            let m = ms[i as int];
            assert(m == message@);
            let done = ms.take(i as int).map_values(encode);
            assert(ms.take(i + 1).map_values(encode) =~= done.push(spec_encode_message(m)));
            done.lemma_flatten_push(spec_encode_message(m));
            assert(buf@ =~= before + spec_encode_message(m));
        }
        i = i + 1;
    }
    assert(ms.take(i as int) =~= ms);
    Ok(())
}

/// Appends the wire form of one action to `buf`.
pub fn write_action(buf: &mut Vec<u8>, action: &Action)
    ensures
        final(buf)@ == old(buf)@ + spec_encode_action(action@),
        encodable_action(action@),
{
    match action {
        Action::SetVar { scope, name, value } => {
            buf.push(ACTION_SET_VAR);
            buf.push(3);
            buf.push(scope.to_u8());
            write_name(buf, name.as_str());
            value.to_bytes(buf);
        },
        Action::UnSetVar { scope, name } => {
            buf.push(ACTION_UNSET_VAR);
            buf.push(2);
            buf.push(scope.to_u8());
            write_name(buf, name.as_str());
        },
    }
    assert(buf@ =~= old(buf)@ + spec_encode_action(action@));
}

/// Appends the wire form of a list of actions to `buf`.
pub fn write_actions(buf: &mut Vec<u8>, actions: &Vec<Action>)
    ensures
        final(buf)@ == old(buf)@ + spec_encode_actions(actions_view(actions@)),
        encodable_payload(PayloadView::ListOfActions(actions_view(actions@))),
{
    let ghost acts = actions_view(actions@);
    let ghost encode = |a: ActionView| spec_encode_action(a);
    let mut i: usize = 0;
    assert(acts.take(0).map_values(encode) =~= Seq::<Seq<u8>>::empty());
    while i < actions.len()
        invariant
            0 <= i <= actions@.len(),
            acts == actions_view(actions@),
            encode == |a: ActionView| spec_encode_action(a),
            buf@ == old(buf)@ + acts.take(i as int).map_values(encode).flatten(),
            forall|k: int| 0 <= k < i ==> encodable_action(#[trigger] acts[k]),
        decreases actions@.len() - i,
    {
        let ghost before = buf@;
        write_action(buf, &actions[i]);
        proof {
            let a = acts[i as int];
            assert(a == actions@[i as int]@);
            let done = acts.take(i as int).map_values(encode);
            assert(acts.take(i + 1).map_values(encode) =~= done.push(spec_encode_action(a)));
            done.lemma_flatten_push(spec_encode_action(a));
        }
        i = i + 1;
    }
    assert(acts.take(i as int) =~= acts);
}

/// Appends the wire form of a payload to `buf`.
///
/// The only payload that cannot be written is a list of messages in which
/// some message has more than 255 arguments; `buf` is then left as it was.
pub fn encode_payload(payload: &FramePayload, buf: &mut Vec<u8>) -> (res: Result<
    (),
    ProtocolError,
>)
    ensures
        match res {
            Ok(()) => final(buf)@ == old(buf)@ + spec_encode_payload(payload@)
                && encodable_payload(payload@) && !(payload@ matches PayloadView::ListOfMessages(
                ms,
            ) && too_many_args(ms)),
            Err(e) => e == ProtocolError::TooManyArgs && final(buf)@ == old(buf)@ && (
            payload@ matches PayloadView::ListOfMessages(ms) && too_many_args(ms)),
        },
{
    match payload {
        FramePayload::ListOfActions(actions) => {
            write_actions(buf, actions);
            Ok(())
        },
        FramePayload::KVList(list) => {
            write_kv_list(buf, list);
            Ok(())
        },
        FramePayload::ListOfMessages(messages) => write_messages(buf, messages),
    }
}

impl Frame {
    /// The wire form of the frame, unless its body is longer than
    /// `max_frame_size` bytes.
    pub fn serialize_within(&self, max_frame_size: u32) -> (res: Result<Vec<u8>, ProtocolError>)
        ensures
            match res {
                Ok(out) => out@ == spec_encode_frame(self@) && spec_encode_body(self@).len()
                    <= max_frame_size && encodable_payload(self@.payload),
                Err(e) => e == ProtocolError::FrameTooLarge && spec_encode_body(self@).len()
                    > max_frame_size,
            },
    {
        let mut body: Vec<u8> = Vec::new();
        body.push(self.frame_type().to_u8());
        let metadata = self.metadata().serialize();
        append_bytes(&mut body, metadata.as_slice());
        let payload = self.payload_ref();
        match encode_payload(payload, &mut body) {
            Ok(()) => {},
            Err(_) => {
                // A well-formed frame has no message with too many arguments.
                proof {
                    let ms = self@.payload->ListOfMessages_0;
                    let i = choose|i: int| 0 <= i < ms.len() && (#[trigger] ms[i]).args.len() > 255;
                    assert(ms[i].args.len() <= 255);
                }
                unreached::<()>()
            },
        }
        assert(body@ =~= spec_encode_body(self@));
        if body.len() > max_frame_size as usize {
            return Err(ProtocolError::FrameTooLarge);
        }
        let prefix = u32_to_be_bytes(body.len() as u32);
        let mut out: Vec<u8> = Vec::new();
        append_bytes(&mut out, prefix.as_slice());
        append_bytes(&mut out, body.as_slice());
        assert(out@ =~= spec_encode_frame(self@));
        Ok(out)
    }

    /// The wire form of the frame, unless its body is longer than the length
    /// prefix can state.
    pub fn serialize(&self) -> (res: Result<Vec<u8>, ProtocolError>)
        ensures
            match res {
                Ok(out) => out@ == spec_encode_frame(self@) && spec_encode_body(self@).len()
                    <= u32::MAX && encodable_payload(self@.payload),
                Err(e) => e == ProtocolError::FrameTooLarge && spec_encode_body(self@).len()
                    > u32::MAX,
            },
    {
        self.serialize_within(u32::MAX)
    }
}

/// The ACK frame without actions that answers the NOTIFY with the given
/// identifiers.
pub open spec fn spec_empty_ack(stream_id: u64, frame_id: u64) -> FrameView {
    FrameView {
        frame_type: FrameType::Ack,
        metadata: Metadata { flags: FrameFlags(1), stream_id, frame_id },
        payload: PayloadView::ListOfActions(Seq::empty()),
    }
}

/// The wire form of the ACK frame without actions that answers the NOTIFY
/// with the given identifiers.
pub fn serialize_ack(stream_id: u64, frame_id: u64) -> (out: Vec<u8>)
    ensures
        out@ == spec_encode_frame(spec_empty_ack(stream_id, frame_id)),
{
    let metadata = Metadata { flags: FrameFlags::new(true, false), stream_id, frame_id };
    let mut body: Vec<u8> = Vec::new();
    body.push(FrameType::Ack.to_u8());
    let encoded = metadata.serialize();
    append_bytes(&mut body, encoded.as_slice());
    proof {
        let none = Seq::<ActionView>::empty();
        assert(none.map_values(|a: ActionView| spec_encode_action(a)) =~= Seq::<Seq<u8>>::empty());
        assert(body@ =~= spec_encode_body(spec_empty_ack(stream_id, frame_id)));
        crate::varint::lemma_encoded_len(stream_id);
        crate::varint::lemma_encoded_len(frame_id);
    }
    let prefix = u32_to_be_bytes(body.len() as u32);
    let mut out: Vec<u8> = Vec::new();
    append_bytes(&mut out, prefix.as_slice());
    append_bytes(&mut out, body.as_slice());
    assert(out@ =~= spec_encode_frame(spec_empty_ack(stream_id, frame_id)));
    out
}

} // verus!
