//! Decoding: what a sequence of bytes means, and the functions that read it.
//!
//! Each `spec_decode_*` function defines the meaning of the bytes at the start
//! of a sequence; the executable parser of the same name without `spec_` is
//! proved to compute exactly that.

use vstd::prelude::*;
use vstd::slice::slice_subrange;
use vstd::utf8::{decode_utf8, valid_utf8};
use crate::actions::{
    actions_view, Action, ActionView, VarScope, ACTION_SET_VAR, ACTION_UNSET_VAR,
};
use crate::error::{ErrorView, ProtocolError};
use crate::frame::{
    check_required, messages_view, spec_check_required, spec_u32_from_be, u32_from_be_bytes,
    wf_frame, wf_messages, Frame, FrameFlags, FramePayload, FrameType, FrameView, Message,
    MessageView, Metadata, PayloadView,
};
use crate::kv::{distinct_keys, has_key, KvList, KvView};
use crate::text::text_from_utf8;
use crate::types::{
    decode_data, error_within_frame, lemma_decode_data_consumed, read_bytes, spec_decode_bytes,
    spec_decode_data, within_frame, TypedData, TypedDataView,
};
use crate::varint::{
    decode_varint, is_suffix, lemma_decode_varint_consumed, lemma_skip_is_suffix,
    lemma_suffix_trans, spec_decode_varint, taken,
};

verus! {

/// Reads a name from the start of `s`: a length-prefixed byte string that
/// must be well-formed UTF-8.
pub open spec fn spec_decode_name(s: Seq<u8>) -> Result<(Seq<char>, nat), ErrorView> {
    match spec_decode_bytes(s) {
        Ok((data, n)) => if valid_utf8(data) {
            Ok((decode_utf8(data), n))
        } else {
            Err(ErrorView::InvalidUtf8)
        },
        Err(e) => Err(e),
    }
}

/// Reads a key/value pair from the start of `s`.
#[verifier::opaque]
pub open spec fn spec_decode_pair(s: Seq<u8>) -> Result<
    ((Seq<char>, TypedDataView), nat),
    ErrorView,
> {
    match spec_decode_name(s) {
        Ok((key, n)) => match spec_decode_data(s.skip(n as int), false) {
            Ok((value, m)) => Ok(((key, value), n + m)),
            Err(e) => Err(e),
        },
        Err(e) => Err(e),
    }
}

/// A successful read of a name or a pair takes at least one byte and stays
/// within the input.
pub proof fn lemma_decode_pair_consumed(s: Seq<u8>)
    ensures
        spec_decode_name(s) matches Ok((_, n)) ==> 1 <= n <= s.len(),
        spec_decode_pair(s) matches Ok((_, n)) ==> 2 <= n <= s.len(),
{
    reveal(spec_decode_pair);
    lemma_decode_varint_consumed(s);
    if let Ok((_, n)) = spec_decode_name(s) {
        lemma_decode_data_consumed(s.skip(n as int), false);
    }
}

/// Reads pairs until `s` is used up and adds them to `acc`.  A key that is
/// already present is an error.
pub open spec fn spec_decode_kv_list(s: Seq<u8>, acc: KvView) -> Result<KvView, ErrorView>
    decreases s.len(),
    via spec_decode_kv_list_decreases
{
    if s.len() == 0 {
        Ok(acc)
    } else {
        match spec_decode_pair(s) {
            Ok((p, n)) => if has_key(acc, p.0) {
                Err(ErrorView::DuplicateKey(p.0))
            } else {
                spec_decode_kv_list(s.skip(n as int), acc.push(p))
            },
            Err(e) => Err(e),
        }
    }
}

#[via_fn]
proof fn spec_decode_kv_list_decreases(s: Seq<u8>, acc: KvView) {
    lemma_decode_pair_consumed(s);
}

/// Reads exactly `count` pairs from the start of `s` and adds them to `acc`;
/// also gives the number of bytes taken.
pub open spec fn spec_decode_kv_count(s: Seq<u8>, count: nat, acc: KvView) -> Result<
    (KvView, nat),
    ErrorView,
>
    decreases count,
{
    if count == 0 {
        Ok((acc, 0))
    } else {
        match spec_decode_pair(s) {
            Ok((p, n)) => if has_key(acc, p.0) {
                Err(ErrorView::DuplicateKey(p.0))
            } else {
                match spec_decode_kv_count(s.skip(n as int), (count - 1) as nat, acc.push(p)) {
                    Ok((l, m)) => Ok((l, n + m)),
                    Err(e) => Err(e),
                }
            },
            Err(e) => Err(e),
        }
    }
}

/// Reads one message from the start of `s`: its name, the number of its
/// arguments, and that many pairs.
#[verifier::opaque]
pub open spec fn spec_decode_message(s: Seq<u8>) -> Result<(MessageView, nat), ErrorView> {
    match spec_decode_name(s) {
        Ok((name, n)) => if s.len() <= n {
            Err(ErrorView::Truncated)
        } else {
            match spec_decode_kv_count(s.skip(n as int + 1), s[n as int] as nat, Seq::empty()) {
                Ok((args, m)) => Ok((MessageView { name, args }, n + 1 + m)),
                Err(e) => Err(e),
            }
        },
        Err(e) => Err(e),
    }
}

/// Reading `count` pairs stays within the input.
pub proof fn lemma_decode_kv_count_consumed(s: Seq<u8>, count: nat, acc: KvView)
    ensures
        spec_decode_kv_count(s, count, acc) matches Ok((l, n)) ==> n <= s.len() && l.len()
            == acc.len() + count,
    decreases count,
{
    if count > 0 {
        lemma_decode_pair_consumed(s);
        if let Ok((p, n)) = spec_decode_pair(s) {
            lemma_decode_kv_count_consumed(s.skip(n as int), (count - 1) as nat, acc.push(p));
        }
    }
}

/// A successful read of a message takes at least two bytes and stays within
/// the input.
pub proof fn lemma_decode_message_consumed(s: Seq<u8>)
    ensures
        spec_decode_message(s) matches Ok((_, n)) ==> 2 <= n <= s.len(),
{
    reveal(spec_decode_message);
    lemma_decode_pair_consumed(s);
    if let Ok((name, n)) = spec_decode_name(s) {
        if s.len() > n {
            lemma_decode_kv_count_consumed(s.skip(n as int + 1), s[n as int] as nat, Seq::empty());
        }
    }
}

/// Reads messages until `s` is used up.
pub open spec fn spec_decode_messages(s: Seq<u8>) -> Result<Seq<MessageView>, ErrorView>
    decreases s.len(),
    via spec_decode_messages_decreases
{
    if s.len() == 0 {
        Ok(Seq::empty())
    } else {
        match spec_decode_message(s) {
            Ok((m, n)) => match spec_decode_messages(s.skip(n as int)) {
                Ok(ms) => Ok(seq![m] + ms),
                Err(e) => Err(e),
            },
            Err(e) => Err(e),
        }
    }
}

#[via_fn]
proof fn spec_decode_messages_decreases(s: Seq<u8>) {
    lemma_decode_message_consumed(s);
}

/// Reads one action from the start of `s`.  The type byte must be set-var or
/// unset-var, the argument count 3 or 2 accordingly, and the scope one of the
/// five known ones; each is checked as soon as it is read.
#[verifier::opaque]
pub open spec fn spec_decode_action(s: Seq<u8>) -> Result<(ActionView, nat), ErrorView> {
    if s.len() < 1 {
        Err(ErrorView::Truncated)
    } else if s[0] != ACTION_SET_VAR && s[0] != ACTION_UNSET_VAR {
        Err(ErrorView::UnknownActionType(s[0]))
    } else if s.len() < 2 {
        Err(ErrorView::Truncated)
    } else if s[1] != (if s[0] == ACTION_SET_VAR { 3u8 } else { 2u8 }) {
        Err(ErrorView::ActionArgCount { action_type: s[0], nb_args: s[1] })
    } else if s.len() < 3 {
        Err(ErrorView::Truncated)
    } else {
        match VarScope::spec_from_u8(s[2]) {
            None => Err(ErrorView::UnknownScope(s[2])),
            Some(scope) => match spec_decode_name(s.skip(3)) {
                Ok((name, n)) => if s[0] == ACTION_SET_VAR {
                    match spec_decode_data(s.skip(3 + n as int), false) {
                        Ok((value, m)) => Ok((ActionView::SetVar { scope, name, value }, 3 + n + m)),
                        Err(e) => Err(e),
                    }
                } else {
                    Ok((ActionView::UnSetVar { scope, name }, 3 + n))
                },
                Err(e) => Err(e),
            },
        }
    }
}

/// A successful read of an action takes at least four bytes and stays within
/// the input.
pub proof fn lemma_decode_action_consumed(s: Seq<u8>)
    ensures
        spec_decode_action(s) matches Ok((_, n)) ==> 4 <= n <= s.len(),
{
    reveal(spec_decode_action);
    if s.len() >= 3 {
        lemma_decode_pair_consumed(s.skip(3));
        if let Ok((name, n)) = spec_decode_name(s.skip(3)) {
            lemma_decode_data_consumed(s.skip(3 + n as int), false);
        }
    }
}

/// Reads actions until `s` is used up.
pub open spec fn spec_decode_actions(s: Seq<u8>) -> Result<Seq<ActionView>, ErrorView>
    decreases s.len(),
    via spec_decode_actions_decreases
{
    if s.len() == 0 {
        Ok(Seq::empty())
    } else {
        match spec_decode_action(s) {
            Ok((a, n)) => match spec_decode_actions(s.skip(n as int)) {
                Ok(acts) => Ok(seq![a] + acts),
                Err(e) => Err(e),
            },
            Err(e) => Err(e),
        }
    }
}

#[via_fn]
proof fn spec_decode_actions_decreases(s: Seq<u8>) {
    lemma_decode_action_consumed(s);
}

/// Reads the payload of a frame of type `t` from `s`, all of it.  For hello
/// and disconnect frames the entries that the type requires must be there.
pub open spec fn spec_decode_payload(t: FrameType, s: Seq<u8>) -> Result<PayloadView, ErrorView> {
    match t {
        FrameType::Notify => match spec_decode_messages(s) {
            Ok(ms) => Ok(PayloadView::ListOfMessages(ms)),
            Err(e) => Err(e),
        },
        FrameType::Ack => match spec_decode_actions(s) {
            Ok(acts) => Ok(PayloadView::ListOfActions(acts)),
            Err(e) => Err(e),
        },
        _ => match spec_decode_kv_list(s, Seq::empty()) {
            Ok(l) => match spec_check_required(t, l) {
                Some(e) => Err(e),
                None => Ok(PayloadView::KVList(l)),
            },
            Err(e) => Err(e),
        },
    }
}

/// Reads a frame from its body, the bytes that the length prefix announced.
///
/// The checks come in wire order: the type byte, the flags (FIN set, reserved
/// bits clear), the two identifiers, then ABORT, which makes the frame an
/// abort request for the exchange that the identifiers name, then the rule
/// that hello and disconnect frames carry zero identifiers, then the payload.
#[verifier::opaque]
pub open spec fn spec_decode_body(b: Seq<u8>) -> Result<FrameView, ErrorView> {
    if b.len() < 1 {
        Err(ErrorView::Truncated)
    } else {
        match FrameType::spec_from_u8(b[0]) {
            None => Err(ErrorView::UnknownFrameType(b[0])),
            Some(t) => if b.len() < 5 {
                Err(ErrorView::Truncated)
            } else {
                let flags = FrameFlags(spec_u32_from_be(b.subrange(1, 5)));
                if !flags.spec_valid() {
                    Err(ErrorView::InvalidFlags)
                } else {
                    match spec_decode_varint(b.skip(5)) {
                        Err(e) => Err(within_frame(e)),
                        Ok((stream_id, n1)) => match spec_decode_varint(b.skip(5 + n1 as int)) {
                            Err(e) => Err(within_frame(e)),
                            Ok((frame_id, n2)) => if flags.spec_is_abort() {
                                Err(ErrorView::AbortRequested { stream_id, frame_id })
                            } else if t.carries_kv_list() && (stream_id != 0 || frame_id != 0) {
                                Err(ErrorView::NonZeroIds)
                            } else {
                                match spec_decode_payload(t, b.skip(5 + n1 as int + n2 as int)) {
                                    Ok(payload) => Ok(
                                        FrameView {
                                            frame_type: t,
                                            metadata: Metadata { flags, stream_id, frame_id },
                                            payload,
                                        },
                                    ),
                                    Err(e) => Err(e),
                                }
                            },
                        },
                    }
                }
            },
        }
    }
}

/// Reads one frame from the start of `s`: the frame and the number of bytes
/// it occupied, which is four more than the length it announced.
///
/// `NeedMore` where the length prefix or the body is not all there yet;
/// `FrameTooLarge` as soon as the prefix announces more than `limit` bytes.
/// Once the body is all there, the result does not depend on what follows.
pub open spec fn spec_decode_frame(s: Seq<u8>, limit: u32) -> Result<(FrameView, nat), ErrorView> {
    if s.len() < 4 {
        Err(ErrorView::NeedMore)
    } else {
        let len = spec_u32_from_be(s);
        if len > limit {
            Err(ErrorView::FrameTooLarge)
        } else if s.len() < 4 + len {
            Err(ErrorView::NeedMore)
        } else {
            match spec_decode_body(s.subrange(4, 4 + len)) {
                Ok(f) => Ok((f, (4 + len) as nat)),
                Err(e) => Err(e),
            }
        }
    }
}

/// Reading pairs to the end keeps the keys distinct.
pub proof fn lemma_decode_kv_list_distinct(s: Seq<u8>, acc: KvView)
    requires
        distinct_keys(acc),
    ensures
        spec_decode_kv_list(s, acc) matches Ok(l) ==> distinct_keys(l),
    decreases s.len(),
{
    if s.len() > 0 {
        lemma_decode_pair_consumed(s);
        if let Ok((p, n)) = spec_decode_pair(s) {
            if !has_key(acc, p.0) {
                lemma_push_distinct(acc, p);
                lemma_decode_kv_list_distinct(s.skip(n as int), acc.push(p));
            }
        }
    }
}

/// Adding an entry under a new key keeps the keys distinct.
pub proof fn lemma_push_distinct(acc: KvView, p: (Seq<char>, TypedDataView))
    requires
        distinct_keys(acc),
        !has_key(acc, p.0),
    ensures
        distinct_keys(acc.push(p)),
{
    let r = acc.push(p);
    assert forall|i: int, j: int| 0 <= i < j < r.len() implies (#[trigger] r[i]).0 != (
    #[trigger] r[j]).0 by {
        if j == acc.len() {
            assert(acc[i].0 != p.0);
        } else {
            assert(acc[i].0 != acc[j].0);
        }
    }
}

/// Reading a counted run of pairs keeps the keys distinct.
pub proof fn lemma_decode_kv_count_distinct(s: Seq<u8>, count: nat, acc: KvView)
    requires
        distinct_keys(acc),
    ensures
        spec_decode_kv_count(s, count, acc) matches Ok((l, _)) ==> distinct_keys(l),
    decreases count,
{
    if count > 0 {
        if let Ok((p, n)) = spec_decode_pair(s) {
            if !has_key(acc, p.0) {
                lemma_push_distinct(acc, p);
                lemma_decode_kv_count_distinct(s.skip(n as int), (count - 1) as nat, acc.push(p));
            }
        }
    }
}

/// Every message that is read is well formed.
pub proof fn lemma_decode_messages_wf(s: Seq<u8>)
    ensures
        spec_decode_messages(s) matches Ok(ms) ==> wf_messages(ms),
    decreases s.len(),
{
    reveal(spec_decode_message);
    if s.len() > 0 {
        lemma_decode_message_consumed(s);
        if let Ok((m, n)) = spec_decode_message(s) {
            lemma_decode_messages_wf(s.skip(n as int));
            if let Ok(ms) = spec_decode_messages(s.skip(n as int)) {
                let (name, k) = spec_decode_name(s)->Ok_0;
                lemma_decode_kv_count_distinct(
                    s.skip(k as int + 1),
                    s[k as int] as nat,
                    Seq::empty(),
                );
                lemma_decode_kv_count_consumed(s.skip(k as int + 1), s[k as int] as nat, Seq::empty());
                let all = seq![m] + ms;
                assert forall|i: int| 0 <= i < all.len() implies distinct_keys(
                    (#[trigger] all[i]).args,
                ) && all[i].args.len() <= 255 by {
                    if i > 0 {
                        assert(all[i] == ms[i - 1]);
                    }
                }
            }
        }
    }
}

/// Every frame that is read is well formed.
pub proof fn lemma_decode_body_wf(b: Seq<u8>)
    ensures
        spec_decode_body(b) matches Ok(f) ==> wf_frame(f),
{
    reveal(spec_decode_body);
    if let Ok(f) = spec_decode_body(b) {
        let (stream_id, n1) = spec_decode_varint(b.skip(5))->Ok_0;
        let (frame_id, n2) = spec_decode_varint(b.skip(5 + n1 as int))->Ok_0;
        let rest = b.skip(5 + n1 as int + n2 as int);
        match f.frame_type {
            FrameType::Notify => {
                lemma_decode_messages_wf(rest);
            },
            FrameType::Ack => {},
            _ => {
                lemma_decode_kv_list_distinct(rest, Seq::empty());
            },
        }
    }
}

/// Reads a name from the start of `input`, returning what follows it and the
/// name.
pub fn parse_string(input: &[u8]) -> (res: Result<(&[u8], String), ProtocolError>)
    ensures
        match res {
            Ok((rest, name)) => is_suffix(input@, rest@) && spec_decode_name(input@) == Ok::<
                (Seq<char>, nat),
                ErrorView,
            >((name@, taken(input@, rest@))),
            Err(e) => spec_decode_name(input@) == Err::<(Seq<char>, nat), ErrorView>(e@),
        },
{
    match read_bytes(input) {
        Ok((rest, data)) => match text_from_utf8(data) {
            Some(name) => Ok((rest, name)),
            None => Err(ProtocolError::InvalidUtf8),
        },
        Err(e) => Err(e),
    }
}

/// Reads a key/value pair from the start of `input`, returning what follows
/// it and the pair.
pub fn parse_key_value_pair(input: &[u8]) -> (res: Result<
    (&[u8], (String, TypedData)),
    ProtocolError,
>)
    ensures
        match res {
            Ok((rest, pair)) => is_suffix(input@, rest@) && spec_decode_pair(input@) == Ok::<
                ((Seq<char>, TypedDataView), nat),
                ErrorView,
            >(((pair.0@, pair.1@), taken(input@, rest@))),
            Err(e) => spec_decode_pair(input@) == Err::<
                ((Seq<char>, TypedDataView), nat),
                ErrorView,
            >(e@),
        },
{
    reveal(spec_decode_pair);
    let (after_key, key) = match parse_string(input) {
        Ok(r) => r,
        Err(e) => {
            return Err(e);
        },
    };
    match decode_data(after_key, false) {
        Ok((rest, value)) => {
            proof {
                lemma_suffix_trans(input@, after_key@, rest@);
            }
            Ok((rest, (key, value)))
        },
        Err(e) => Err(e),
    }
}

/// Reads key/value pairs until `input` is used up.  A key that occurs twice
/// is an error.
pub fn parse_key_value_pairs(input: &[u8]) -> (res: Result<(&[u8], FramePayload), ProtocolError>)
    ensures
        match res {
            Ok((rest, payload)) => rest@.len() == 0 && is_suffix(input@, rest@) && (
            payload@ matches PayloadView::KVList(l) && spec_decode_kv_list(input@, Seq::empty())
                == Ok::<KvView, ErrorView>(l)),
            Err(e) => spec_decode_kv_list(input@, Seq::empty()) == Err::<KvView, ErrorView>(e@),
        },
{
    let mut list = KvList::new();
    let mut cur: &[u8] = input;
    proof {
        lemma_skip_is_suffix(input@, 0);
        assert(input@.skip(0) =~= input@);
    }
    while cur.len() > 0
        invariant
            is_suffix(input@, cur@),
            spec_decode_kv_list(input@, Seq::empty()) == spec_decode_kv_list(cur@, list@),
        decreases cur@.len(),
    {
        proof {
            lemma_decode_pair_consumed(cur@);
        }
        match parse_key_value_pair(cur) {
            Ok((rest, (key, value))) => {
                if list.contains_key(key.as_str()) {
                    return Err(ProtocolError::DuplicateKey(key));
                }
                proof {
                    lemma_suffix_trans(input@, cur@, rest@);
                }
                list.insert(key, value);
                cur = rest;
            },
            Err(e) => {
                return Err(e);
            },
        }
    }
    Ok((cur, FramePayload::KVList(list)))
}

/// Reads exactly `count` key/value pairs from the start of `input`, returning
/// what follows them and the list.  A key that occurs twice is an error.
pub fn parse_key_value_count(input: &[u8], count: u8) -> (res: Result<
    (&[u8], KvList),
    ProtocolError,
>)
    ensures
        match res {
            Ok((rest, list)) => is_suffix(input@, rest@) && spec_decode_kv_count(
                input@,
                count as nat,
                Seq::empty(),
            ) == Ok::<(KvView, nat), ErrorView>((list@, taken(input@, rest@))),
            Err(e) => spec_decode_kv_count(input@, count as nat, Seq::empty()) == Err::<
                (KvView, nat),
                ErrorView,
            >(e@),
        },
{
    let mut list = KvList::new();
    let mut cur: &[u8] = input;
    let mut left: u8 = count;
    proof {
        lemma_skip_is_suffix(input@, 0);
        assert(input@.skip(0) =~= input@);
    }
    while left > 0
        invariant
            is_suffix(input@, cur@),
            spec_decode_kv_count(input@, count as nat, Seq::empty()) == match spec_decode_kv_count(
                cur@,
                left as nat,
                list@,
            ) {
                Ok((l, n)) => Ok::<(KvView, nat), ErrorView>((l, n + taken(input@, cur@))),
                Err(e) => Err(e),
            },
        decreases left,
    {
        match parse_key_value_pair(cur) {
            Ok((rest, (key, value))) => {
                if list.contains_key(key.as_str()) {
                    return Err(ProtocolError::DuplicateKey(key));
                }
                proof {
                    lemma_suffix_trans(input@, cur@, rest@);
                }
                list.insert(key, value);
                cur = rest;
                left = left - 1;
            },
            Err(e) => {
                return Err(e);
            },
        }
    }
    Ok((cur, list))
}

/// Reads one message from the start of `input`, returning what follows it and
/// the message.
pub fn parse_message(input: &[u8]) -> (res: Result<(&[u8], Message), ProtocolError>)
    ensures
        match res {
            Ok((rest, message)) => is_suffix(input@, rest@) && spec_decode_message(input@) == Ok::<
                (MessageView, nat),
                ErrorView,
            >((message@, taken(input@, rest@))),
            Err(e) => spec_decode_message(input@) == Err::<(MessageView, nat), ErrorView>(e@),
        },
{
    reveal(spec_decode_message);
    let (after_name, name) = match parse_string(input) {
        Ok(r) => r,
        Err(e) => {
            return Err(e);
        },
    };
    if after_name.len() == 0 {
        return Err(ProtocolError::Truncated);
    }
    let nb_args: u8 = after_name[0];
    let after_count = slice_subrange(after_name, 1, after_name.len());
    proof {
        assert(after_count@ =~= after_name@.skip(1));
        lemma_skip_is_suffix(after_name@, 1);
        lemma_suffix_trans(input@, after_name@, after_count@);
        assert(after_count@ =~= input@.skip(taken(input@, after_name@) as int + 1));
    }
    match parse_key_value_count(after_count, nb_args) {
        Ok((rest, args)) => {
            proof {
                lemma_suffix_trans(input@, after_count@, rest@);
            }
            Ok((rest, Message { name, args }))
        },
        Err(e) => Err(e),
    }
}

/// Reads messages until `input` is used up.
pub fn parse_list_of_messages(input: &[u8]) -> (res: Result<(&[u8], Vec<Message>), ProtocolError>)
    ensures
        match res {
            Ok((rest, messages)) => rest@.len() == 0 && is_suffix(input@, rest@)
                && spec_decode_messages(input@) == Ok::<Seq<MessageView>, ErrorView>(
                messages_view(messages@),
            ),
            Err(e) => spec_decode_messages(input@) == Err::<Seq<MessageView>, ErrorView>(e@),
        },
{
    let mut messages: Vec<Message> = Vec::new();
    let mut cur: &[u8] = input;
    proof {
        lemma_skip_is_suffix(input@, 0);
        assert(input@.skip(0) =~= input@);
        assert(messages_view(messages@) =~= Seq::<MessageView>::empty());
    }
    while cur.len() > 0
        invariant
            is_suffix(input@, cur@),
            spec_decode_messages(input@) == match spec_decode_messages(cur@) {
                Ok(ms) => Ok::<Seq<MessageView>, ErrorView>(messages_view(messages@) + ms),
                Err(e) => Err(e),
            },
        decreases cur@.len(),
    {
        proof {
            lemma_decode_message_consumed(cur@);
        }
        match parse_message(cur) {
            Ok((rest, message)) => {
                proof {
                    lemma_suffix_trans(input@, cur@, rest@);
                    let done = messages_view(messages@);
                    assert(messages_view(messages@.push(message)) =~= done.push(message@));
                    if let Ok(ms) = spec_decode_messages(rest@) {
                        assert(done.push(message@) + ms =~= done + (seq![message@] + ms));
                    }
                }
                messages.push(message);
                cur = rest;
            },
            Err(e) => {
                return Err(e);
            },
        }
    }
    assert(messages_view(messages@) + Seq::<MessageView>::empty() =~= messages_view(messages@));
    Ok((cur, messages))
}

/// Reads one action from the start of `input`, returning what follows it and
/// the action.
pub fn parse_action(input: &[u8]) -> (res: Result<(&[u8], Action), ProtocolError>)
    ensures
        match res {
            Ok((rest, action)) => is_suffix(input@, rest@) && spec_decode_action(input@) == Ok::<
                (ActionView, nat),
                ErrorView,
            >((action@, taken(input@, rest@))),
            Err(e) => spec_decode_action(input@) == Err::<(ActionView, nat), ErrorView>(e@),
        },
{
    reveal(spec_decode_action);
    if input.len() < 1 {
        return Err(ProtocolError::Truncated);
    }
    let action_type: u8 = input[0];
    if action_type != ACTION_SET_VAR && action_type != ACTION_UNSET_VAR {
        return Err(ProtocolError::UnknownActionType(action_type));
    }
    if input.len() < 2 {
        return Err(ProtocolError::Truncated);
    }
    let nb_args: u8 = input[1];
    let expected: u8 = if action_type == ACTION_SET_VAR {
        3
    } else {
        2
    };
    if nb_args != expected {
        return Err(ProtocolError::ActionArgCount { action_type, nb_args });
    }
    if input.len() < 3 {
        return Err(ProtocolError::Truncated);
    }
    let scope = match VarScope::from_u8(input[2]) {
        Ok(s) => s,
        Err(e) => {
            return Err(e);
        },
    };
    let after_scope = slice_subrange(input, 3, input.len());
    proof {
        assert(after_scope@ =~= input@.skip(3));
        lemma_skip_is_suffix(input@, 3);
    }
    let (after_name, name) = match parse_string(after_scope) {
        Ok(r) => r,
        Err(e) => {
            return Err(e);
        },
    };
    proof {
        lemma_suffix_trans(input@, after_scope@, after_name@);
    }
    if action_type == ACTION_SET_VAR {
        match decode_data(after_name, false) {
            Ok((rest, value)) => {
                proof {
                    lemma_suffix_trans(input@, after_name@, rest@);
                }
                Ok((rest, Action::SetVar { scope, name, value }))
            },
            Err(e) => Err(e),
        }
    } else {
        Ok((after_name, Action::UnSetVar { scope, name }))
    }
}

/// Reads actions until `input` is used up.
pub fn parse_list_of_actions(input: &[u8]) -> (res: Result<(&[u8], Vec<Action>), ProtocolError>)
    ensures
        match res {
            Ok((rest, actions)) => rest@.len() == 0 && is_suffix(input@, rest@)
                && spec_decode_actions(input@) == Ok::<Seq<ActionView>, ErrorView>(
                actions_view(actions@),
            ),
            Err(e) => spec_decode_actions(input@) == Err::<Seq<ActionView>, ErrorView>(e@),
        },
{
    let mut actions: Vec<Action> = Vec::new();
    let mut cur: &[u8] = input;
    proof {
        lemma_skip_is_suffix(input@, 0);
        assert(input@.skip(0) =~= input@);
        assert(actions_view(actions@) =~= Seq::<ActionView>::empty());
    }
    while cur.len() > 0
        invariant
            is_suffix(input@, cur@),
            spec_decode_actions(input@) == match spec_decode_actions(cur@) {
                Ok(acts) => Ok::<Seq<ActionView>, ErrorView>(actions_view(actions@) + acts),
                Err(e) => Err(e),
            },
        decreases cur@.len(),
    {
        proof {
            lemma_decode_action_consumed(cur@);
        }
        match parse_action(cur) {
            Ok((rest, action)) => {
                proof {
                    lemma_suffix_trans(input@, cur@, rest@);
                    let done = actions_view(actions@);
                    assert(actions_view(actions@.push(action)) =~= done.push(action@));
                    if let Ok(acts) = spec_decode_actions(rest@) {
                        assert(done.push(action@) + acts =~= done + (seq![action@] + acts));
                    }
                }
                actions.push(action);
                cur = rest;
            },
            Err(e) => {
                return Err(e);
            },
        }
    }
    assert(actions_view(actions@) + Seq::<ActionView>::empty() =~= actions_view(actions@));
    Ok((cur, actions))
}

/// Reads the payload of a frame of type `frame_type` from `input`, all of it.
pub fn parse_payload(frame_type: FrameType, input: &[u8]) -> (res: Result<
    FramePayload,
    ProtocolError,
>)
    ensures
        match res {
            Ok(payload) => spec_decode_payload(frame_type, input@) == Ok::<
                PayloadView,
                ErrorView,
            >(payload@),
            Err(e) => spec_decode_payload(frame_type, input@) == Err::<PayloadView, ErrorView>(
                e@,
            ),
        },
{
    match frame_type {
        FrameType::Notify => match parse_list_of_messages(input) {
            Ok((_, messages)) => Ok(FramePayload::ListOfMessages(messages)),
            Err(e) => Err(e),
        },
        FrameType::Ack => match parse_list_of_actions(input) {
            Ok((_, actions)) => Ok(FramePayload::ListOfActions(actions)),
            Err(e) => Err(e),
        },
        _ => match parse_key_value_pairs(input) {
            Ok((_, payload)) => {
                match &payload {
                    FramePayload::KVList(list) => match check_required(frame_type, list) {
                        Some(e) => {
                            return Err(e);
                        },
                        None => {},
                    },
                    _ => {},
                }
                Ok(payload)
            },
            Err(e) => Err(e),
        },
    }
}

/// Reads a frame from its body.
pub fn parse_body(body: &[u8]) -> (res: Result<Frame, ProtocolError>)
    ensures
        match res {
            Ok(frame) => spec_decode_body(body@) == Ok::<FrameView, ErrorView>(frame@),
            Err(e) => spec_decode_body(body@) == Err::<FrameView, ErrorView>(e@),
        },
{
    reveal(spec_decode_body);
    if body.len() < 1 {
        return Err(ProtocolError::Truncated);
    }
    let frame_type = match FrameType::from_u8(body[0]) {
        Ok(t) => t,
        Err(e) => {
            return Err(e);
        },
    };
    if body.len() < 5 {
        return Err(ProtocolError::Truncated);
    }
    let flags_value = u32_from_be_bytes(slice_subrange(body, 1, 5));
    let flags = match FrameFlags::from_u32(flags_value) {
        Ok(f) => f,
        Err(e) => {
            return Err(e);
        },
    };
    let after_flags = slice_subrange(body, 5, body.len());
    proof {
        assert(after_flags@ =~= body@.skip(5));
        lemma_skip_is_suffix(body@, 5);
    }
    let (after_stream, stream_id) = match decode_varint(after_flags) {
        Ok(r) => r,
        Err(e) => {
            return Err(error_within_frame(e));
        },
    };
    proof {
        lemma_suffix_trans(body@, after_flags@, after_stream@);
    }
    let (after_ids, frame_id) = match decode_varint(after_stream) {
        Ok(r) => r,
        Err(e) => {
            return Err(error_within_frame(e));
        },
    };
    proof {
        lemma_suffix_trans(body@, after_stream@, after_ids@);
    }
    if flags.is_abort() {
        return Err(ProtocolError::AbortRequested { stream_id, frame_id });
    }
    let kv_type = match frame_type {
        FrameType::Notify | FrameType::Ack => false,
        _ => true,
    };
    if kv_type && (stream_id != 0 || frame_id != 0) {
        return Err(ProtocolError::NonZeroIds);
    }
    let payload = match parse_payload(frame_type, after_ids) {
        Ok(p) => p,
        Err(e) => {
            return Err(e);
        },
    };
    proof {
        lemma_decode_body_wf(body@);
    }
    Ok(Frame::assemble(frame_type, Metadata { flags, stream_id, frame_id }, payload))
}

/// Reads one frame from the start of `input`, refusing any that announces
/// more than `max_frame_size` bytes.  Returns what follows the frame, and the
/// frame.
pub fn parse_frame_within(input: &[u8], max_frame_size: u32) -> (res: Result<
    (&[u8], Frame),
    ProtocolError,
>)
    ensures
        match res {
            Ok((rest, frame)) => is_suffix(input@, rest@) && spec_decode_frame(
                input@,
                max_frame_size,
            ) == Ok::<(FrameView, nat), ErrorView>((frame@, taken(input@, rest@))),
            Err(e) => spec_decode_frame(input@, max_frame_size) == Err::<
                (FrameView, nat),
                ErrorView,
            >(e@),
        },
{
    if input.len() < 4 {
        return Err(ProtocolError::NeedMore);
    }
    let frame_length: u32 = u32_from_be_bytes(input);
    if frame_length > max_frame_size {
        return Err(ProtocolError::FrameTooLarge);
    }
    let length: usize = frame_length as usize;
    if input.len() - 4 < length {
        return Err(ProtocolError::NeedMore);
    }
    let body = slice_subrange(input, 4, 4 + length);
    let rest = slice_subrange(input, 4 + length, input.len());
    proof {
        assert(rest@ =~= input@.skip(4 + length));
        lemma_skip_is_suffix(input@, 4 + length);
    }
    match parse_body(body) {
        Ok(frame) => Ok((rest, frame)),
        Err(e) => Err(e),
    }
}

/// Reads one frame from the start of `input`.  Returns what follows the
/// frame, and the frame.
pub fn parse_frame(input: &[u8]) -> (res: Result<(&[u8], Frame), ProtocolError>)
    ensures
        match res {
            Ok((rest, frame)) => is_suffix(input@, rest@) && spec_decode_frame(input@, u32::MAX)
                == Ok::<(FrameView, nat), ErrorView>((frame@, taken(input@, rest@))),
            Err(e) => spec_decode_frame(input@, u32::MAX) == Err::<(FrameView, nat), ErrorView>(
                e@,
            ),
        },
{
    parse_frame_within(input, u32::MAX)
}

} // verus!
