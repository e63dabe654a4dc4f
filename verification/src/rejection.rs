//! What the decoder refuses, and with which error.

use vstd::prelude::*;
use crate::actions::{ActionView, ACTION_SET_VAR, ACTION_UNSET_VAR};
use crate::error::ErrorView;
use crate::frame::{spec_u32_from_be, FrameFlags, FrameType, FrameView, PayloadView};
use crate::kv::{distinct_keys, has_key, KvView};
use crate::parser::{
    lemma_decode_pair_consumed, spec_decode_action, spec_decode_body, spec_decode_frame,
    spec_decode_payload,
};
use crate::roundtrip::{lemma_actions_prefix, lemma_kv_list_prefix, lemma_pair_roundtrip};
use crate::serialize::{
    encodable_action, encodable_kv_list, encodable_name, spec_encode_actions,
    spec_encode_kv_list, spec_encode_pair,
};
use crate::types::{wf_data, TypedDataView};

verus! {

/// The frame whose length prefix and body are all there is judged by its
/// body alone: an error from the body is the error of the frame.
pub proof fn lemma_frame_error_is_body_error(s: Seq<u8>, limit: u32)
    requires
        s.len() >= 4,
        spec_u32_from_be(s) <= limit,
        s.len() >= 4 + spec_u32_from_be(s),
    ensures
        spec_decode_frame(s, limit) == match spec_decode_body(
            s.subrange(4, 4 + spec_u32_from_be(s)),
        ) {
            Ok(f) => Ok::<(FrameView, nat), ErrorView>((f, (4 + spec_u32_from_be(s)) as nat)),
            Err(e) => Err(e),
        },
{
}

/// A frame that announces more than the limit is refused on sight of its
/// length prefix.
pub proof fn lemma_rejects_oversized(s: Seq<u8>, limit: u32)
    requires
        s.len() >= 4,
        spec_u32_from_be(s) > limit,
    ensures
        spec_decode_frame(s, limit) == Err::<(FrameView, nat), ErrorView>(
            ErrorView::FrameTooLarge,
        ),
{
}

/// A body whose first byte is none of the six frame types is refused as
/// `UnknownFrameType`, whatever else it holds.
pub proof fn lemma_rejects_unknown_frame_type(b: Seq<u8>)
    requires
        b.len() >= 1,
        FrameType::spec_from_u8(b[0]) is None,
    ensures
        spec_decode_body(b) == Err::<FrameView, ErrorView>(ErrorView::UnknownFrameType(b[0])),
{
    reveal(spec_decode_body);
}

/// A body of a known type whose flags lack FIN or have a reserved bit set is
/// refused as `InvalidFlags`, whatever follows the flags.
pub proof fn lemma_rejects_invalid_flags(b: Seq<u8>)
    requires
        b.len() >= 5,
        FrameType::spec_from_u8(b[0]) is Some,
        !FrameFlags(spec_u32_from_be(b.subrange(1, 5))).spec_valid(),
    ensures
        spec_decode_body(b) == Err::<FrameView, ErrorView>(ErrorView::InvalidFlags),
{
    reveal(spec_decode_body);
}

/// A body that is too short to hold a type and flags is refused as
/// `Truncated`; this covers the frame of length zero.
pub proof fn lemma_rejects_short_body(b: Seq<u8>)
    requires
        b.len() < 5,
        b.len() >= 1 ==> FrameType::spec_from_u8(b[0]) is Some,
    ensures
        spec_decode_body(b) == Err::<FrameView, ErrorView>(ErrorView::Truncated),
{
    reveal(spec_decode_body);
}

/// An action whose argument count does not match its type is refused as
/// `ActionArgCount`, also where well-formed actions come before it in the
/// payload of an ACK.
pub proof fn lemma_rejects_action_arg_count(acts: Seq<ActionView>, s: Seq<u8>)
    requires
        forall|i: int| 0 <= i < acts.len() ==> encodable_action(#[trigger] acts[i]),
        s.len() >= 2,
        s[0] == ACTION_SET_VAR || s[0] == ACTION_UNSET_VAR,
        s[1] != (if s[0] == ACTION_SET_VAR { 3u8 } else { 2u8 }),
    ensures
        spec_decode_payload(FrameType::Ack, spec_encode_actions(acts) + s) == Err::<
            PayloadView,
            ErrorView,
        >(ErrorView::ActionArgCount { action_type: s[0], nb_args: s[1] }),
{
    reveal(spec_decode_action);
    lemma_actions_prefix(acts, s);
}

/// A key/value list in which a key comes a second time is refused as
/// `DuplicateKey` with that key, whatever follows the second occurrence.
pub proof fn lemma_rejects_duplicate_key(
    t: FrameType,
    l: KvView,
    p: (Seq<char>, TypedDataView),
    rest: Seq<u8>,
)
    requires
        t.carries_kv_list(),
        distinct_keys(l),
        encodable_kv_list(l),
        has_key(l, p.0),
        encodable_name(p.0),
        wf_data(p.1),
    ensures
        spec_decode_payload(t, spec_encode_kv_list(l) + (spec_encode_pair(p) + rest)) == Err::<
            PayloadView,
            ErrorView,
        >(ErrorView::DuplicateKey(p.0)),
{
    let after = spec_encode_pair(p) + rest;
    assert(Seq::<(Seq<char>, TypedDataView)>::empty() + l =~= l);
    lemma_kv_list_prefix(l, Seq::empty(), after);
    lemma_pair_roundtrip(p, rest);
    lemma_decode_pair_consumed(after);
}

} // verus!
