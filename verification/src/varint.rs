//! The variable-length integer of the protocol.
//!
//! Values below 240 occupy one byte.  Larger values put their low four bits in
//! the first byte (whose high nibble is all ones) and continue with groups of
//! seven bits, each group biased so that every value has exactly one encoding.

use vstd::prelude::*;
use vstd::slice::slice_subrange;
use crate::error::{ErrorView, ProtocolError};

verus! {

/// `rest` is what remains of `input` once a prefix has been taken off.
pub open spec fn is_suffix(input: Seq<u8>, rest: Seq<u8>) -> bool {
    rest.len() <= input.len() && rest == input.skip(input.len() - rest.len())
}

/// The length of the prefix of `input` that precedes `rest`.
pub open spec fn taken(input: Seq<u8>, rest: Seq<u8>) -> nat {
    (input.len() - rest.len()) as nat
}

/// Taking a prefix off twice is taking the two prefixes off at once.
pub proof fn lemma_suffix_trans(input: Seq<u8>, mid: Seq<u8>, rest: Seq<u8>)
    requires
        is_suffix(input, mid),
        is_suffix(mid, rest),
    ensures
        is_suffix(input, rest),
        taken(input, rest) == taken(input, mid) + taken(mid, rest),
{
    assert(rest =~= input.skip(input.len() - rest.len()));
}

/// Dropping the first `n` bytes leaves a suffix.
pub proof fn lemma_skip_is_suffix(input: Seq<u8>, n: int)
    requires
        0 <= n <= input.len(),
    ensures
        is_suffix(input, input.skip(n)),
        taken(input, input.skip(n)) == n,
{
}

/// The bytes after the first one: `r` is what is left of the value once the
/// first byte has taken its share.
pub open spec fn encode_tail(r: nat) -> Seq<u8>
    decreases r,
{
    if r < 128 {
        seq![r as u8]
    } else {
        seq![((r % 128) + 128) as u8] + encode_tail(((r - 128) / 128) as nat)
    }
}

/// The encoding of `x`.
pub open spec fn spec_encode_varint(x: u64) -> Seq<u8> {
    if x < 240 {
        seq![x as u8]
    } else {
        seq![((x % 16) + 240) as u8] + encode_tail(((x - 240) / 16) as nat)
    }
}

/// The number of bytes that `x` occupies, by value range.
pub open spec fn spec_varint_len(x: u64) -> nat {
    if x < 240 {
        1
    } else if x < 2288 {
        2
    } else if x < 264432 {
        3
    } else if x < 33818864 {
        4
    } else if x < 4328786160 {
        5
    } else if x < 554084600048 {
        6
    } else if x < 70922828777712 {
        7
    } else if x < 9078122083518704 {
        8
    } else if x < 1161999626690365680 {
        9
    } else {
        10
    }
}

/// Reads continuation bytes from the start of `s`, after `read` of them have
/// been read already.  On success gives the value they stand for (each byte
/// weighs 128 times the one before) and how many were taken.
pub open spec fn decode_tail(s: Seq<u8>, read: nat) -> Result<(nat, nat), ErrorView>
    decreases s.len(),
{
    if read >= 9 {
        Err(ErrorView::VarintOverflow)
    } else if s.len() == 0 {
        Err(ErrorView::NeedMore)
    } else if s[0] < 128 {
        Ok((s[0] as nat, 1))
    } else {
        match decode_tail(s.skip(1), read + 1) {
            Ok((v, n)) => Ok((s[0] as nat + 128 * v, n + 1)),
            Err(e) => Err(e),
        }
    }
}

/// Decodes one integer from the start of `s`: the value and the number of
/// bytes it occupied.
///
/// Any terminating byte sequence is accepted; the only failures are an input
/// that ends too early (`NeedMore`), ten bytes without a terminator and a value
/// beyond 64 bits (both `VarintOverflow`).
pub open spec fn spec_decode_varint(s: Seq<u8>) -> Result<(u64, nat), ErrorView> {
    if s.len() == 0 {
        Err(ErrorView::NeedMore)
    } else if s[0] < 240 {
        Ok((s[0] as u64, 1))
    } else {
        match decode_tail(s.skip(1), 0) {
            Ok((v, n)) => if s[0] + 16 * v <= u64::MAX {
                Ok(((s[0] + 16 * v) as u64, n + 1))
            } else {
                Err(ErrorView::VarintOverflow)
            },
            Err(e) => Err(e),
        }
    }
}

/// `128^k`, the weight of the `k`-th continuation byte.
spec fn weight(k: nat) -> nat
    decreases k,
{
    if k == 0 {
        1
    } else {
        128 * weight((k - 1) as nat)
    }
}

proof fn lemma_weight_values()
    ensures
        weight(0) == 1,
        weight(1) == 128,
        weight(2) == 16384,
        weight(3) == 2097152,
        weight(4) == 268435456,
        weight(5) == 34359738368,
        weight(6) == 4398046511104,
        weight(7) == 562949953421312,
        weight(8) == 72057594037927936,
        weight(9) == 9223372036854775808,
{
    reveal_with_fuel(weight, 11);
}

/// Length of the tail by value range.
spec fn tail_len(r: nat) -> nat {
    if r < 128 {
        1
    } else if r < 16512 {
        2
    } else if r < 2113664 {
        3
    } else if r < 270549120 {
        4
    } else if r < 34630287488 {
        5
    } else if r < 4432676798592 {
        6
    } else if r < 567382630219904 {
        7
    } else if r < 72624976668147840 {
        8
    } else if r < 9295997013522923648 {
        9
    } else {
        10
    }
}

proof fn lemma_encode_tail_len(r: nat)
    requires
        r < 9295997013522923648,
    ensures
        encode_tail(r).len() == tail_len(r),
    decreases r,
{
    if r >= 128 {
        lemma_encode_tail_len(((r - 128) / 128) as nat);
    }
}

/// The encoded length of a value follows the ten value ranges, so it never
/// decreases as the value grows and is at most ten.
pub proof fn lemma_encoded_len(x: u64)
    ensures
        spec_encode_varint(x).len() == spec_varint_len(x),
        1 <= spec_varint_len(x) <= 10,
{
    if x >= 240 {
        lemma_encode_tail_len(((x - 240) / 16) as nat);
    }
}

/// A larger value never has a shorter encoding.
pub proof fn lemma_encoded_len_monotone(x: u64, y: u64)
    requires
        x <= y,
    ensures
        spec_encode_varint(x).len() <= spec_encode_varint(y).len(),
{
    lemma_encoded_len(x);
    lemma_encoded_len(y);
}

proof fn lemma_decode_encode_tail(r: nat, rest: Seq<u8>, read: nat)
    requires
        read + encode_tail(r).len() <= 9,
    ensures
        decode_tail(encode_tail(r) + rest, read) == Ok::<(nat, nat), ErrorView>(
            (r, encode_tail(r).len()),
        ),
    decreases r,
{
    let s = encode_tail(r) + rest;
    if r < 128 {
        assert(s[0] == r as u8);
    } else {
        let next = ((r - 128) / 128) as nat;
        assert(s[0] == ((r % 128) + 128) as u8);
        assert(s.skip(1) =~= encode_tail(next) + rest);
        lemma_decode_encode_tail(next, rest, read + 1);
    }
}

/// Decoding what the encoder wrote gives the value back and stops exactly at
/// the end of the encoding, whatever bytes follow.
pub proof fn lemma_varint_roundtrip(x: u64, rest: Seq<u8>)
    ensures
        spec_decode_varint(spec_encode_varint(x) + rest) == Ok::<(u64, nat), ErrorView>(
            (x, spec_encode_varint(x).len()),
        ),
{
    let s = spec_encode_varint(x) + rest;
    if x < 240 {
        assert(s[0] == x as u8);
    } else {
        let r = ((x - 240) / 16) as nat;
        lemma_encode_tail_len(r);
        assert(s[0] == ((x % 16) + 240) as u8);
        assert(s.skip(1) =~= encode_tail(r) + rest);
        lemma_decode_encode_tail(r, rest, 0);
    }
}

/// A successful decode never reads past the input, takes at least one byte and
/// at most ten, and depends only on the bytes it took.
pub proof fn lemma_decode_varint_consumed(s: Seq<u8>)
    ensures
        spec_decode_varint(s) matches Ok((_, n)) ==> 1 <= n <= s.len() && n <= 10
            && spec_decode_varint(s.take(n as int)) == spec_decode_varint(s),
{
    if s.len() > 0 && s[0] >= 240 {
        lemma_decode_tail_consumed(s.skip(1), 0);
        if let Ok((v, n)) = decode_tail(s.skip(1), 0) {
            assert(s.take(n as int + 1).skip(1) =~= s.skip(1).take(n as int));
        }
    }
}

proof fn lemma_decode_tail_consumed(s: Seq<u8>, read: nat)
    ensures
        decode_tail(s, read) matches Ok((_, n)) ==> 1 <= n <= s.len() && read + n <= 9
            && decode_tail(s.take(n as int), read) == decode_tail(s, read),
    decreases s.len(),
{
    if read < 9 && s.len() > 0 && s[0] >= 128 {
        lemma_decode_tail_consumed(s.skip(1), read + 1);
        if let Ok((v, n)) = decode_tail(s.skip(1), read + 1) {
            assert(s.take(n as int + 1).skip(1) =~= s.skip(1).take(n as int));
        }
    }
}

/// Encodes `x`.
pub fn encode_varint(x: u64) -> (out: Vec<u8>)
    ensures
        out@ == spec_encode_varint(x),
{
    let mut out: Vec<u8> = Vec::new();
    if x < 240 {
        out.push(x as u8);
        assert(out@ =~= spec_encode_varint(x));
        return out;
    }
    let first: u8 = ((x & 0x0f) | 0xf0) as u8;
    assert(((x & 0x0f) | 0xf0) == (x % 16) + 240) by (bit_vector);
    out.push(first);
    let mut r: u64 = (x - 240) >> 4;
    assert((x - 240) as u64 >> 4 == (x - 240) as u64 / 16) by (bit_vector);
    while r >= 128
        invariant
            out@ + encode_tail(r as nat) =~= spec_encode_varint(x),
        decreases r,
    {
        let b: u8 = ((r & 0x7f) | 0x80) as u8;
        assert(((r & 0x7f) | 0x80) == (r % 128) + 128) by (bit_vector);
        assert(r >= 128 ==> (r - 128) as u64 >> 7 == (r - 128) as u64 / 128) by (bit_vector);
        proof {
            assert(encode_tail(r as nat) =~= seq![((r % 128) + 128) as u8] + encode_tail(
                ((r - 128) / 128) as nat,
            ));
        }
        out.push(b);
        r = (r - 128) >> 7;
    }
    out.push(r as u8);
    out
}

/// Decodes one integer from the start of `input`, returning the bytes that
/// follow it and the value.
pub fn decode_varint(input: &[u8]) -> (res: Result<(&[u8], u64), ProtocolError>)
    ensures
        match res {
            Ok((rest, x)) => is_suffix(input@, rest@) && spec_decode_varint(input@) == Ok::<
                (u64, nat),
                ErrorView,
            >((x, taken(input@, rest@))),
            Err(e) => spec_decode_varint(input@) == Err::<(u64, nat), ErrorView>(e@),
        },
{
    if input.len() == 0 {
        return Err(ProtocolError::NeedMore);
    }
    let first: u8 = input[0];
    if first < 240 {
        return Ok((slice_subrange(input, 1, input.len()), first as u64));
    }
    let ghost tail = input@.skip(1);
    // `acc + mult * (value of the bytes from i on)` is the value of the whole tail.
    let mut acc: u128 = 0;
    let mut mult: u128 = 1;
    let mut i: usize = 1;
    let mut read: usize = 0;
    proof {
        lemma_weight_values();
        assert(tail.skip(0) =~= tail);
    }
    loop
        invariant
            1 <= i <= input.len(),
            first == input@[0],
            first >= 240,
            i == read + 1,
            read <= 9,
            tail == input@.skip(1),
            mult == weight(read as nat),
            acc <= 3 * mult,
            decode_tail(tail, 0) == match decode_tail(tail.skip(read as int), read as nat) {
                Ok((v, n)) => Ok::<(nat, nat), ErrorView>(
                    (acc as nat + mult as nat * v, n + read as nat),
                ),
                Err(e) => Err(e),
            },
        decreases 10 - read,
    {
        proof {
            lemma_weight_values();
            reveal_with_fuel(weight, 2);
        }
        if read >= 9 {
            return Err(ProtocolError::VarintOverflow);
        }
        if i >= input.len() {
            return Err(ProtocolError::NeedMore);
        }
        let b: u8 = input[i];
        let ghost cur = tail.skip(read as int);
        assert(cur[0] == b);
        assert(mult <= 72057594037927936);
        assert(mult * (b as u128) <= 255 * mult) by (nonlinear_arith)
            requires
                b <= 255,
        ;
        if b < 128 {
            let v: u128 = acc + mult * (b as u128);
            let total: u128 = first as u128 + 16 * v;
            if total > u64::MAX as u128 {
                return Err(ProtocolError::VarintOverflow);
            }
            return Ok((slice_subrange(input, i + 1, input.len()), total as u64));
        }
        proof {
            assert(cur.skip(1) =~= tail.skip(read as int + 1));
            assert(weight((read + 1) as nat) == 128 * weight(read as nat));
            match decode_tail(cur.skip(1), (read + 1) as nat) {
                Ok((v, n)) => {
                    assert(acc as nat + mult as nat * (b as nat + 128 * v) == (acc as nat
                        + mult as nat * b as nat) + (mult as nat * 128) * v) by (nonlinear_arith);
                },
                Err(e) => {},
            }
        }
        acc = acc + mult * (b as u128);
        mult = mult * 128;
        i = i + 1;
        read = read + 1;
    }
}

} // verus!
