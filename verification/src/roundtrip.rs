//! The laws that tie the encoder and the decoder together.
//!
//! Everything here is stated over the mathematical model of the wire format
//! and holds for every value, not for samples: what is written is read back
//! unchanged, a frame that is not all there yet is asked for again, and a
//! frame that is all there is read the same whatever follows it.

use vstd::prelude::*;
use vstd::utf8::encode_utf8;
use crate::actions::{lemma_scope_roundtrip, ActionView};
use crate::error::ErrorView;
use crate::frame::{
    lemma_frame_type_roundtrip, lemma_u32_be_roundtrip, spec_u32_be, spec_u32_from_be, wf_frame,
    wf_messages, wf_payload, FrameType, FrameView, MessageView, PayloadView,
};
use crate::kv::{distinct_keys, has_key, KvView};
use crate::parser::{
    spec_decode_action, spec_decode_actions, spec_decode_body, spec_decode_frame,
    spec_decode_kv_count, spec_decode_kv_list, spec_decode_message, spec_decode_messages,
    spec_decode_name, spec_decode_pair, spec_decode_payload,
};
use crate::serialize::{
    encodable_action, encodable_kv_list, encodable_message, encodable_name, encodable_payload,
    spec_encode_action, spec_encode_actions, spec_encode_body, spec_encode_frame,
    spec_encode_kv_list, spec_encode_message, spec_encode_messages, spec_encode_name,
    spec_encode_pair, spec_encode_payload,
};
use crate::types::{
    lemma_bytes_roundtrip, lemma_data_roundtrip, spec_encode_data, wf_data, TypedDataView,
};
use crate::varint::{lemma_varint_roundtrip, spec_encode_varint};

verus! {

/// A name is read back unchanged, whatever follows it.
pub proof fn lemma_name_roundtrip(name: Seq<char>, rest: Seq<u8>)
    requires
        encodable_name(name),
    ensures
        spec_decode_name(spec_encode_name(name) + rest) == Ok::<(Seq<char>, nat), ErrorView>(
            (name, spec_encode_name(name).len()),
        ),
{
    vstd::utf8::encode_utf8_valid_utf8(name);
    vstd::utf8::encode_utf8_decode_utf8(name);
    lemma_bytes_roundtrip(encode_utf8(name), rest);
}

/// A key/value pair is read back unchanged, whatever follows it.
pub proof fn lemma_pair_roundtrip(p: (Seq<char>, TypedDataView), rest: Seq<u8>)
    requires
        encodable_name(p.0),
        wf_data(p.1),
    ensures
        spec_decode_pair(spec_encode_pair(p) + rest) == Ok::<
            ((Seq<char>, TypedDataView), nat),
            ErrorView,
        >((p, spec_encode_pair(p).len())),
{
    reveal(spec_decode_pair);
    let s = spec_encode_pair(p) + rest;
    let name = spec_encode_name(p.0);
    assert(s =~= name + (spec_encode_data(p.1) + rest));
    lemma_name_roundtrip(p.0, spec_encode_data(p.1) + rest);
    assert(s.skip(name.len() as int) =~= spec_encode_data(p.1) + rest);
    lemma_data_roundtrip(p.1, rest, false);
}

/// The wire form of a non-empty list is that of its first pair followed by
/// that of the others.
pub proof fn lemma_encode_kv_list_unfold(l: KvView)
    requires
        l.len() > 0,
    ensures
        spec_encode_kv_list(l) == spec_encode_pair(l[0]) + spec_encode_kv_list(l.drop_first()),
{
    let encode = |p: (Seq<char>, TypedDataView)| spec_encode_pair(p);
    assert(l.map_values(encode).drop_first() =~= l.drop_first().map_values(encode));
}

/// The wire form of a non-empty list of messages is that of the first
/// message followed by that of the others.
pub proof fn lemma_encode_messages_unfold(ms: Seq<MessageView>)
    requires
        ms.len() > 0,
    ensures
        spec_encode_messages(ms) == spec_encode_message(ms[0]) + spec_encode_messages(
            ms.drop_first(),
        ),
{
    let encode = |m: MessageView| spec_encode_message(m);
    assert(ms.map_values(encode).drop_first() =~= ms.drop_first().map_values(encode));
}

/// The wire form of a non-empty list of actions is that of the first action
/// followed by that of the others.
pub proof fn lemma_encode_actions_unfold(acts: Seq<ActionView>)
    requires
        acts.len() > 0,
    ensures
        spec_encode_actions(acts) == spec_encode_action(acts[0]) + spec_encode_actions(
            acts.drop_first(),
        ),
{
    let encode = |a: ActionView| spec_encode_action(a);
    assert(acts.map_values(encode).drop_first() =~= acts.drop_first().map_values(encode));
}

/// Keys that are distinct across `acc + l` are distinct across `acc` with the
/// first entry of `l` added, followed by the rest of `l`.
proof fn lemma_distinct_step(acc: KvView, l: KvView)
    requires
        l.len() > 0,
        distinct_keys(acc + l),
    ensures
        !has_key(acc, l[0].0),
        acc.push(l[0]) + l.drop_first() == acc + l,
{
    let all = acc + l;
    if has_key(acc, l[0].0) {
        let i = choose|i: int| 0 <= i < acc.len() && (#[trigger] acc[i]).0 == l[0].0;
        assert(all[i].0 != all[acc.len() as int].0);
    }
    assert(acc.push(l[0]) + l.drop_first() =~= acc + l);
}

/// Reading a key/value list that is followed by `rest` comes to reading
/// `rest` with the entries of the list already seen.
pub proof fn lemma_kv_list_prefix(l: KvView, acc: KvView, rest: Seq<u8>)
    requires
        distinct_keys(acc + l),
        encodable_kv_list(l),
    ensures
        spec_decode_kv_list(spec_encode_kv_list(l) + rest, acc) == spec_decode_kv_list(
            rest,
            acc + l,
        ),
    decreases l.len(),
{
    if l.len() == 0 {
        assert(acc + l =~= acc);
        assert(l.map_values(|p: (Seq<char>, TypedDataView)| spec_encode_pair(p)) =~= Seq::<
            Seq<u8>,
        >::empty());
        assert(spec_encode_kv_list(l) + rest =~= rest);
    } else {
        let tail = l.drop_first();
        let after = spec_encode_kv_list(tail) + rest;
        lemma_encode_kv_list_unfold(l);
        lemma_pair_roundtrip(l[0], after);
        lemma_distinct_step(acc, l);
        let s = spec_encode_kv_list(l) + rest;
        assert(s =~= spec_encode_pair(l[0]) + after);
        assert(s.skip(spec_encode_pair(l[0]).len() as int) =~= after);
        crate::parser::lemma_decode_pair_consumed(s);
        assert forall|i: int| 0 <= i < tail.len() implies encodable_name((#[trigger] tail[i]).0)
            && wf_data(tail[i].1) by {
            assert(tail[i] == l[i + 1]);
        }
        lemma_kv_list_prefix(tail, acc.push(l[0]), rest);
    }
}

/// A key/value list that fills the input is read back unchanged.
pub proof fn lemma_kv_list_roundtrip(l: KvView, acc: KvView)
    requires
        distinct_keys(acc + l),
        encodable_kv_list(l),
    ensures
        spec_decode_kv_list(spec_encode_kv_list(l), acc) == Ok::<KvView, ErrorView>(acc + l),
{
    lemma_kv_list_prefix(l, acc, Seq::empty());
    assert(spec_encode_kv_list(l) + Seq::<u8>::empty() =~= spec_encode_kv_list(l));
}

/// A counted run of pairs is read back unchanged, whatever follows it.
pub proof fn lemma_kv_count_roundtrip(l: KvView, acc: KvView, rest: Seq<u8>)
    requires
        distinct_keys(acc + l),
        encodable_kv_list(l),
    ensures
        spec_decode_kv_count(spec_encode_kv_list(l) + rest, l.len(), acc) == Ok::<
            (KvView, nat),
            ErrorView,
        >((acc + l, spec_encode_kv_list(l).len())),
    decreases l.len(),
{
    if l.len() == 0 {
        assert(acc + l =~= acc);
        assert(l.map_values(|p: (Seq<char>, TypedDataView)| spec_encode_pair(p)) =~= Seq::<
            Seq<u8>,
        >::empty());
    } else {
        let tail = l.drop_first();
        let after = spec_encode_kv_list(tail) + rest;
        lemma_encode_kv_list_unfold(l);
        lemma_pair_roundtrip(l[0], after);
        lemma_distinct_step(acc, l);
        let s = spec_encode_kv_list(l) + rest;
        assert(s =~= spec_encode_pair(l[0]) + after);
        assert(s.skip(spec_encode_pair(l[0]).len() as int) =~= after);
        assert forall|i: int| 0 <= i < tail.len() implies encodable_name((#[trigger] tail[i]).0)
            && wf_data(tail[i].1) by {
            assert(tail[i] == l[i + 1]);
        }
        lemma_kv_count_roundtrip(tail, acc.push(l[0]), rest);
    }
}

/// A message is read back unchanged, whatever follows it.
pub proof fn lemma_message_roundtrip(m: MessageView, rest: Seq<u8>)
    requires
        distinct_keys(m.args),
        m.args.len() <= 255,
        encodable_message(m),
    ensures
        spec_decode_message(spec_encode_message(m) + rest) == Ok::<(MessageView, nat), ErrorView>(
            (m, spec_encode_message(m).len()),
        ),
{
    reveal(spec_decode_message);
    let name = spec_encode_name(m.name);
    let args = spec_encode_kv_list(m.args);
    let s = spec_encode_message(m) + rest;
    let after_name = seq![m.args.len() as u8] + args + rest;
    assert(s =~= name + after_name);
    lemma_name_roundtrip(m.name, after_name);
    assert(s[name.len() as int] == m.args.len() as u8);
    assert(s.skip(name.len() as int + 1) =~= args + rest);
    assert(Seq::<(Seq<char>, TypedDataView)>::empty() + m.args =~= m.args);
    lemma_kv_count_roundtrip(m.args, Seq::empty(), rest);
}

/// A list of messages that fills the input is read back unchanged.
pub proof fn lemma_messages_roundtrip(ms: Seq<MessageView>)
    requires
        wf_messages(ms),
        forall|i: int| 0 <= i < ms.len() ==> encodable_message(#[trigger] ms[i]),
    ensures
        spec_decode_messages(spec_encode_messages(ms)) == Ok::<Seq<MessageView>, ErrorView>(ms),
    decreases ms.len(),
{
    if ms.len() == 0 {
        assert(ms.map_values(|m: MessageView| spec_encode_message(m)) =~= Seq::<Seq<u8>>::empty());
        assert(ms =~= Seq::<MessageView>::empty());
    } else {
        let tail = ms.drop_first();
        let rest = spec_encode_messages(tail);
        lemma_encode_messages_unfold(ms);
        lemma_message_roundtrip(ms[0], rest);
        let s = spec_encode_messages(ms);
        assert(s.skip(spec_encode_message(ms[0]).len() as int) =~= rest);
        crate::parser::lemma_decode_message_consumed(s);
        assert forall|i: int| 0 <= i < tail.len() implies distinct_keys((#[trigger] tail[i]).args)
            && tail[i].args.len() <= 255 && encodable_message(tail[i]) by {
            assert(tail[i] == ms[i + 1]);
        }
        lemma_messages_roundtrip(tail);
        assert(seq![ms[0]] + tail =~= ms);
    }
}

proof fn lemma_set_var_roundtrip(a: ActionView, rest: Seq<u8>)
    requires
        a is SetVar,
        encodable_action(a),
    ensures
        spec_decode_action(spec_encode_action(a) + rest) == Ok::<(ActionView, nat), ErrorView>(
            (a, spec_encode_action(a).len()),
        ),
{
    reveal(spec_decode_action);
    let s = spec_encode_action(a) + rest;
    let scope = a->SetVar_scope;
    let name = a->SetVar_name;
    let value = a->SetVar_value;
    let head = seq![1u8, 3u8, scope.spec_to_u8()];
    let after = spec_encode_data(value) + rest;
    let wire_name = spec_encode_name(name);
    assert(spec_encode_action(a) == head + wire_name + spec_encode_data(value));
    assert(s =~= head + (wire_name + after));
    assert(s[0] == 1u8 && s[1] == 3u8 && s[2] == scope.spec_to_u8());
    lemma_scope_roundtrip(scope);
    assert(s.skip(3) =~= wire_name + after);
    lemma_name_roundtrip(name, after);
    assert(s.skip(3 + wire_name.len() as int) =~= after);
    lemma_data_roundtrip(value, rest, false);
}

proof fn lemma_unset_var_roundtrip(a: ActionView, rest: Seq<u8>)
    requires
        a is UnSetVar,
        encodable_action(a),
    ensures
        spec_decode_action(spec_encode_action(a) + rest) == Ok::<(ActionView, nat), ErrorView>(
            (a, spec_encode_action(a).len()),
        ),
{
    reveal(spec_decode_action);
    let s = spec_encode_action(a) + rest;
    let scope = a->UnSetVar_scope;
    let name = a->UnSetVar_name;
    let head = seq![2u8, 2u8, scope.spec_to_u8()];
    let wire_name = spec_encode_name(name);
    assert(spec_encode_action(a) == head + wire_name);
    assert(s =~= head + (wire_name + rest));
    assert(s[0] == 2u8 && s[1] == 2u8 && s[2] == scope.spec_to_u8());
    lemma_scope_roundtrip(scope);
    assert(s.skip(3) =~= wire_name + rest);
    lemma_name_roundtrip(name, rest);
}

/// An action is read back unchanged, whatever follows it.
pub proof fn lemma_action_roundtrip(a: ActionView, rest: Seq<u8>)
    requires
        encodable_action(a),
    ensures
        spec_decode_action(spec_encode_action(a) + rest) == Ok::<(ActionView, nat), ErrorView>(
            (a, spec_encode_action(a).len()),
        ),
{
    if a is SetVar {
        lemma_set_var_roundtrip(a, rest);
    } else {
        lemma_unset_var_roundtrip(a, rest);
    }
}

/// Reading a list of actions that is followed by `rest` comes to reading
/// `rest` and putting the actions of the list in front.
pub proof fn lemma_actions_prefix(acts: Seq<ActionView>, rest: Seq<u8>)
    requires
        forall|i: int| 0 <= i < acts.len() ==> encodable_action(#[trigger] acts[i]),
    ensures
        spec_decode_actions(spec_encode_actions(acts) + rest) == match spec_decode_actions(rest) {
            Ok(more) => Ok::<Seq<ActionView>, ErrorView>(acts + more),
            Err(e) => Err(e),
        },
    decreases acts.len(),
{
    if acts.len() == 0 {
        assert(acts.map_values(|a: ActionView| spec_encode_action(a)) =~= Seq::<Seq<u8>>::empty());
        assert(spec_encode_actions(acts) + rest =~= rest);
        if let Ok(more) = spec_decode_actions(rest) {
            assert(acts + more =~= more);
        }
    } else {
        let tail = acts.drop_first();
        let after = spec_encode_actions(tail) + rest;
        lemma_encode_actions_unfold(acts);
        lemma_action_roundtrip(acts[0], after);
        let s = spec_encode_actions(acts) + rest;
        assert(s =~= spec_encode_action(acts[0]) + after);
        assert(s.skip(spec_encode_action(acts[0]).len() as int) =~= after);
        crate::parser::lemma_decode_action_consumed(s);
        assert forall|i: int| 0 <= i < tail.len() implies encodable_action(#[trigger] tail[i]) by {
            assert(tail[i] == acts[i + 1]);
        }
        lemma_actions_prefix(tail, rest);
        if let Ok(more) = spec_decode_actions(rest) {
            assert(seq![acts[0]] + (tail + more) =~= acts + more);
        }
    }
}

/// A list of actions that fills the input is read back unchanged.
pub proof fn lemma_actions_roundtrip(acts: Seq<ActionView>)
    requires
        forall|i: int| 0 <= i < acts.len() ==> encodable_action(#[trigger] acts[i]),
    ensures
        spec_decode_actions(spec_encode_actions(acts)) == Ok::<Seq<ActionView>, ErrorView>(acts),
{
    lemma_actions_prefix(acts, Seq::empty());
    assert(spec_encode_actions(acts) + Seq::<u8>::empty() =~= spec_encode_actions(acts));
    assert(acts + Seq::<ActionView>::empty() =~= acts);
}

/// A well-formed payload is read back unchanged.
pub proof fn lemma_payload_roundtrip(t: FrameType, p: PayloadView)
    requires
        wf_payload(t, p),
        encodable_payload(p),
    ensures
        spec_decode_payload(t, spec_encode_payload(p)) == Ok::<PayloadView, ErrorView>(p),
{
    match p {
        PayloadView::KVList(l) => {
            assert(Seq::<(Seq<char>, TypedDataView)>::empty() + l =~= l);
            lemma_kv_list_roundtrip(l, Seq::empty());
        },
        PayloadView::ListOfMessages(ms) => {
            lemma_messages_roundtrip(ms);
        },
        PayloadView::ListOfActions(acts) => {
            lemma_actions_roundtrip(acts);
        },
    }
}

/// What reading back the body of a well-formed frame gives: the frame
/// itself, or, where the frame carries ABORT, the abort request that names
/// its identifiers.
pub open spec fn spec_read_back(f: FrameView) -> Result<FrameView, ErrorView> {
    if f.metadata.flags.spec_is_abort() {
        Err(
            ErrorView::AbortRequested {
                stream_id: f.metadata.stream_id,
                frame_id: f.metadata.frame_id,
            },
        )
    } else {
        Ok(f)
    }
}

/// The parts of a body are found where the decoder looks for them.
proof fn lemma_body_layout(type_byte: u8, flags: u32, stream_id: u64, frame_id: u64, payload: Seq<u8>)
    ensures
        ({
            let b = seq![type_byte] + spec_u32_be(flags) + spec_encode_varint(stream_id)
                + spec_encode_varint(frame_id) + payload;
            let n1 = spec_encode_varint(stream_id).len();
            let n2 = spec_encode_varint(frame_id).len();
            &&& b.len() >= 5
            &&& b[0] == type_byte
            &&& spec_u32_from_be(b.subrange(1, 5)) == flags
            &&& crate::varint::spec_decode_varint(b.skip(5)) == Ok::<(u64, nat), ErrorView>(
                (stream_id, n1),
            )
            &&& crate::varint::spec_decode_varint(b.skip(5 + n1 as int)) == Ok::<
                (u64, nat),
                ErrorView,
            >((frame_id, n2))
            &&& b.skip(5 + n1 as int + n2 as int) == payload
        }),
{
    let be = spec_u32_be(flags);
    let stream = spec_encode_varint(stream_id);
    let frame = spec_encode_varint(frame_id);
    let b = seq![type_byte] + be + stream + frame + payload;
    lemma_u32_be_roundtrip(flags);
    assert(b.subrange(1, 5) =~= be);
    assert(b.skip(5) =~= stream + (frame + payload));
    lemma_varint_roundtrip(stream_id, frame + payload);
    assert(b.skip(5 + stream.len() as int) =~= frame + payload);
    lemma_varint_roundtrip(frame_id, payload);
    assert(b.skip(5 + stream.len() as int + frame.len() as int) =~= payload);
}

/// The body of a well-formed frame is read back as the frame.
#[verifier::rlimit(40)]
pub proof fn lemma_body_roundtrip(f: FrameView)
    requires
        wf_frame(f),
        encodable_payload(f.payload),
    ensures
        spec_decode_body(spec_encode_body(f)) == spec_read_back(f),
{
    reveal(spec_decode_body);
    let b = spec_encode_body(f);
    let payload = spec_encode_payload(f.payload);
    lemma_body_layout(
        f.frame_type.spec_to_u8(),
        f.metadata.flags.0,
        f.metadata.stream_id,
        f.metadata.frame_id,
        payload,
    );
    assert(b =~= seq![f.frame_type.spec_to_u8()] + spec_u32_be(f.metadata.flags.0)
        + spec_encode_varint(f.metadata.stream_id) + spec_encode_varint(f.metadata.frame_id)
        + payload);
    lemma_frame_type_roundtrip(f.frame_type);
    lemma_payload_roundtrip(f.frame_type, f.payload);
}

/// **Frame round trip.**  The wire form of a well-formed frame, followed by
/// anything, is read back as the frame, and exactly the bytes of the wire
/// form are taken.  (A frame that carries ABORT is read back as the abort
/// request for its identifiers.)
pub proof fn lemma_frame_roundtrip(f: FrameView, limit: u32, rest: Seq<u8>)
    requires
        wf_frame(f),
        encodable_payload(f.payload),
        spec_encode_body(f).len() <= limit,
    ensures
        spec_decode_frame(spec_encode_frame(f) + rest, limit) == match spec_read_back(f) {
            Ok(g) => Ok::<(FrameView, nat), ErrorView>((g, spec_encode_frame(f).len())),
            Err(e) => Err(e),
        },
{
    let body = spec_encode_body(f);
    let s = spec_encode_frame(f) + rest;
    lemma_u32_be_roundtrip(body.len() as u32);
    let prefix = spec_u32_be(body.len() as u32);
    assert(s[0] == prefix[0] && s[1] == prefix[1] && s[2] == prefix[2] && s[3] == prefix[3]);
    assert(spec_u32_from_be(s) == body.len());
    assert(s.subrange(4, 4 + body.len() as int) =~= body);
    lemma_body_roundtrip(f);
}

/// **Need more.**  Any proper prefix of the wire form of a frame is answered
/// with `NeedMore`, whether the cut falls in the length prefix or in the body.
pub proof fn lemma_prefix_needs_more(f: FrameView, limit: u32, k: int)
    requires
        spec_encode_body(f).len() <= limit,
        0 <= k < spec_encode_frame(f).len(),
    ensures
        spec_decode_frame(spec_encode_frame(f).take(k), limit) == Err::<
            (FrameView, nat),
            ErrorView,
        >(ErrorView::NeedMore),
{
    let body = spec_encode_body(f);
    let s = spec_encode_frame(f).take(k);
    if k >= 4 {
        lemma_u32_be_roundtrip(body.len() as u32);
        let prefix = spec_u32_be(body.len() as u32);
        assert(s[0] == prefix[0] && s[1] == prefix[1] && s[2] == prefix[2] && s[3] == prefix[3]);
        assert(spec_u32_from_be(s) == body.len());
    }
}

/// **Stability.**  Once a read has an answer other than `NeedMore`, more
/// input does not change it: the answer depends only on the frame's own bytes.
pub proof fn lemma_decode_frame_stable(s: Seq<u8>, more: Seq<u8>, limit: u32)
    requires
        spec_decode_frame(s, limit) != Err::<(FrameView, nat), ErrorView>(ErrorView::NeedMore),
    ensures
        spec_decode_frame(s + more, limit) == spec_decode_frame(s, limit),
{
    let t = s + more;
    assert(t[0] == s[0] && t[1] == s[1] && t[2] == s[2] && t[3] == s[3]);
    let len = spec_u32_from_be(s);
    if len <= limit {
        assert(t.subrange(4, 4 + len) =~= s.subrange(4, 4 + len));
    }
}

/// A successful read takes the length prefix and the body it announces, no
/// more and no less, and the frame it gives is well formed.
pub proof fn lemma_decode_frame_consumed(s: Seq<u8>, limit: u32)
    ensures
        spec_decode_frame(s, limit) matches Ok((f, n)) ==> n == 4 + spec_u32_from_be(s) && 4 <= n
            <= s.len() && wf_frame(f),
{
    if s.len() >= 4 {
        let len = spec_u32_from_be(s);
        if len <= limit && s.len() >= 4 + len {
            crate::parser::lemma_decode_body_wf(s.subrange(4, 4 + len));
        }
    }
}

/// What a byte stream holds: the frames that can be read from its front,
/// what is left once no further frame can be read, and the error that stopped
/// the reading, if it was an error and not the end of the input.
pub struct StreamView {
    pub frames: Seq<FrameView>,
    pub rest: Seq<u8>,
    pub error: Option<ErrorView>,
}

/// Reads frames off the front of `s` for as long as there is a whole frame.
pub open spec fn spec_decode_stream(s: Seq<u8>, limit: u32) -> StreamView
    decreases s.len(),
    via spec_decode_stream_decreases
{
    match spec_decode_frame(s, limit) {
        Ok((f, n)) => {
            let tail = spec_decode_stream(s.skip(n as int), limit);
            StreamView { frames: seq![f] + tail.frames, rest: tail.rest, error: tail.error }
        },
        Err(ErrorView::NeedMore) => StreamView { frames: Seq::empty(), rest: s, error: None },
        Err(e) => StreamView { frames: Seq::empty(), rest: s, error: Some(e) },
    }
}

#[via_fn]
proof fn spec_decode_stream_decreases(s: Seq<u8>, limit: u32) {
    lemma_decode_frame_consumed(s, limit);
}

/// The wire forms of a sequence of frames, one after the other.
pub open spec fn spec_encode_stream(fs: Seq<FrameView>) -> Seq<u8> {
    fs.map_values(|f: FrameView| spec_encode_frame(f)).flatten()
}

/// A frame that can be written within `limit` and read back as itself.
pub open spec fn streamable(f: FrameView, limit: u32) -> bool {
    &&& wf_frame(f)
    &&& encodable_payload(f.payload)
    &&& !f.metadata.flags.spec_is_abort()
    &&& spec_encode_body(f).len() <= limit
}

/// **Streaming decode, whole stream.**  The concatenated wire forms of
/// frames are read back as those frames, in order, with nothing left over.
#[verifier::rlimit(40)]
pub proof fn lemma_stream_roundtrip(fs: Seq<FrameView>, limit: u32)
    requires
        forall|i: int| 0 <= i < fs.len() ==> streamable(#[trigger] fs[i], limit),
    ensures
        spec_decode_stream(spec_encode_stream(fs), limit) == (StreamView {
            frames: fs,
            rest: Seq::empty(),
            error: None,
        }),
    decreases fs.len(),
{
    let encode = |f: FrameView| spec_encode_frame(f);
    if fs.len() == 0 {
        assert(fs.map_values(encode) =~= Seq::<Seq<u8>>::empty());
        assert(spec_encode_stream(fs) =~= Seq::<u8>::empty());
        assert(fs =~= Seq::<FrameView>::empty());
    } else {
        let tail = fs.drop_first();
        let rest = spec_encode_stream(tail);
        assert(fs.map_values(encode).drop_first() =~= tail.map_values(encode));
        let s = spec_encode_stream(fs);
        assert(s == spec_encode_frame(fs[0]) + rest);
        lemma_frame_roundtrip(fs[0], limit, rest);
        assert(s.skip(spec_encode_frame(fs[0]).len() as int) =~= rest);
        assert forall|i: int| 0 <= i < tail.len() implies streamable(#[trigger] tail[i], limit) by {
            assert(tail[i] == fs[i + 1]);
        }
        lemma_stream_roundtrip(tail, limit);
        assert(seq![fs[0]] + tail =~= fs);
    }
}

/// **Streaming decode, any chunking.**  Reading a stream that arrives in two
/// pieces gives what reading it in one piece gives: the frames of the first
/// piece, then the frames found in what the first piece left over followed by
/// the second piece.  An error in the first piece stays where it was found.
/// By repetition this covers every way of cutting a stream into chunks.
pub proof fn lemma_stream_chunked(a: Seq<u8>, b: Seq<u8>, limit: u32)
    ensures
        ({
            let first = spec_decode_stream(a, limit);
            let second = spec_decode_stream(first.rest + b, limit);
            spec_decode_stream(a + b, limit) == if first.error is Some {
                StreamView { frames: first.frames, rest: first.rest + b, error: first.error }
            } else {
                StreamView {
                    frames: first.frames + second.frames,
                    rest: second.rest,
                    error: second.error,
                }
            }
        }),
    decreases a.len(),
{
    let first = spec_decode_stream(a, limit);
    let second = spec_decode_stream(first.rest + b, limit);
    match spec_decode_frame(a, limit) {
        Ok((f, n)) => {
            lemma_decode_frame_consumed(a, limit);
            lemma_decode_frame_stable(a, b, limit);
            assert((a + b).skip(n as int) =~= a.skip(n as int) + b);
            lemma_stream_chunked(a.skip(n as int), b, limit);
            let tail = spec_decode_stream(a.skip(n as int), limit);
            assert(seq![f] + (tail.frames + second.frames) =~= (seq![f] + tail.frames)
                + second.frames);
        },
        Err(ErrorView::NeedMore) => {
            assert(Seq::<FrameView>::empty() + second.frames =~= second.frames);
        },
        Err(e) => {
            lemma_decode_frame_stable(a, b, limit);
        },
    }
}

/// Reads a stream that arrives in pieces: each piece joins what the pieces
/// before it left over, and the frames that are then all there are read.  An
/// error ends the reading; what arrives after it is only kept.
pub open spec fn spec_decode_chunks(chunks: Seq<Seq<u8>>, limit: u32) -> StreamView
    decreases chunks.len(),
{
    if chunks.len() == 0 {
        StreamView { frames: Seq::empty(), rest: Seq::empty(), error: None }
    } else {
        let before = spec_decode_chunks(chunks.drop_last(), limit);
        if before.error is Some {
            StreamView { rest: before.rest + chunks.last(), ..before }
        } else {
            let step = spec_decode_stream(before.rest + chunks.last(), limit);
            StreamView {
                frames: before.frames + step.frames,
                rest: step.rest,
                error: step.error,
            }
        }
    }
}

/// Reading a stream piece by piece gives what reading it in one piece gives.
pub proof fn lemma_chunks_are_the_stream(chunks: Seq<Seq<u8>>, limit: u32)
    ensures
        spec_decode_chunks(chunks, limit) == spec_decode_stream(chunks.flatten(), limit),
    decreases chunks.len(),
{
    if chunks.len() == 0 {
        assert(chunks.flatten() =~= Seq::<u8>::empty());
    } else {
        let init = chunks.drop_last();
        lemma_chunks_are_the_stream(init, limit);
        init.lemma_flatten_push(chunks.last());
        assert(init.push(chunks.last()) =~= chunks);
        lemma_stream_chunked(init.flatten(), chunks.last(), limit);
    }
}

/// **Streaming decode.**  Let a byte stream be the wire forms of the frames
/// `fs`, one after the other, and let it arrive cut into `chunks` in any way
/// at all.  Reading it piece by piece gives exactly the frames `fs`, in
/// order, with no error and nothing left over.
pub proof fn lemma_streaming(fs: Seq<FrameView>, chunks: Seq<Seq<u8>>, limit: u32)
    requires
        forall|i: int| 0 <= i < fs.len() ==> streamable(#[trigger] fs[i], limit),
        chunks.flatten() == spec_encode_stream(fs),
    ensures
        spec_decode_chunks(chunks, limit) == (StreamView {
            frames: fs,
            rest: Seq::empty(),
            error: None,
        }),
{
    lemma_chunks_are_the_stream(chunks, limit);
    lemma_stream_roundtrip(fs, limit);
}

} // verus!
