//! Typed values: the scalars and byte strings that frames carry.
//!
//! A value starts with one byte whose low nibble is the type and whose high
//! nibble holds flags (only booleans use them).  Integers follow as one
//! variable-length integer, addresses as raw bytes, strings and binary data as
//! a length and that many bytes.

use vstd::prelude::*;
use vstd::slice::slice_subrange;
use vstd::slice::slice_to_vec;
use vstd::utf8::{encode_utf8, valid_utf8};
use crate::error::{ErrorView, ProtocolError};
use crate::text::{
    append_bytes, bytes_eq, spec_text, str_eq, text_from_utf8, text_from_utf8_lossy,
};
use crate::varint::{
    decode_varint, encode_varint, is_suffix, lemma_skip_is_suffix, lemma_suffix_trans,
    lemma_varint_roundtrip, spec_decode_varint, spec_encode_varint, taken,
};

verus! {

pub const TYPE_NULL: u8 = 0x00;

pub const TYPE_BOOL: u8 = 0x01;

pub const TYPE_INT32: u8 = 0x02;

pub const TYPE_UINT32: u8 = 0x03;

pub const TYPE_INT64: u8 = 0x04;

pub const TYPE_UINT64: u8 = 0x05;

pub const TYPE_IPV4: u8 = 0x06;

pub const TYPE_IPV6: u8 = 0x07;

pub const TYPE_STRING: u8 = 0x08;

pub const TYPE_BINARY: u8 = 0x09;

/// A tagged value.
#[derive(Debug, PartialEq, Eq)]
pub enum TypedData {
    Null,
    Bool(bool),
    Int32(i32),
    UInt32(u32),
    Int64(i64),
    UInt64(u64),
    IPv4([u8; 4]),
    IPv6([u8; 16]),
    String(String),
    Binary(Vec<u8>),
}

/// Mathematical counterpart of [`TypedData`].
pub enum TypedDataView {
    Null,
    Bool(bool),
    Int32(i32),
    UInt32(u32),
    Int64(i64),
    UInt64(u64),
    IPv4(Seq<u8>),
    IPv6(Seq<u8>),
    String(Seq<char>),
    Binary(Seq<u8>),
}

impl View for TypedData {
    type V = TypedDataView;

    open spec fn view(&self) -> TypedDataView {
        match *self {
            TypedData::Null => TypedDataView::Null,
            TypedData::Bool(b) => TypedDataView::Bool(b),
            TypedData::Int32(x) => TypedDataView::Int32(x),
            TypedData::UInt32(x) => TypedDataView::UInt32(x),
            TypedData::Int64(x) => TypedDataView::Int64(x),
            TypedData::UInt64(x) => TypedDataView::UInt64(x),
            TypedData::IPv4(a) => TypedDataView::IPv4(a@),
            TypedData::IPv6(a) => TypedDataView::IPv6(a@),
            TypedData::String(s) => TypedDataView::String(s@),
            TypedData::Binary(b) => TypedDataView::Binary(b@),
        }
    }
}

impl Clone for TypedData {
    fn clone(&self) -> (res: Self)
        ensures
            res@ == self@,
    {
        match self {
            TypedData::Null => TypedData::Null,
            TypedData::Bool(b) => TypedData::Bool(*b),
            TypedData::Int32(x) => TypedData::Int32(*x),
            TypedData::UInt32(x) => TypedData::UInt32(*x),
            TypedData::Int64(x) => TypedData::Int64(*x),
            TypedData::UInt64(x) => TypedData::UInt64(*x),
            TypedData::IPv4(a) => TypedData::IPv4(*a),
            TypedData::IPv6(a) => TypedData::IPv6(*a),
            TypedData::String(s) => TypedData::String(s.clone()),
            TypedData::Binary(b) => TypedData::Binary(slice_to_vec(b.as_slice())),
        }
    }
}

/// The unsigned integer that carries a signed 32-bit value: its two's
/// complement bit pattern, sign-extended to 64 bits.
pub open spec fn wire_of_i32(x: i32) -> u64 {
    if x >= 0 {
        x as u64
    } else {
        (0x1_0000_0000_0000_0000 + x) as u64
    }
}

/// The unsigned integer that carries a signed 64-bit value: its two's
/// complement bit pattern.
pub open spec fn wire_of_i64(x: i64) -> u64 {
    if x >= 0 {
        x as u64
    } else {
        (0x1_0000_0000_0000_0000 + x) as u64
    }
}

/// The low 32 bits of `w`.
pub open spec fn u32_of_wire(w: u64) -> u32 {
    (w % 0x1_0000_0000) as u32
}

/// The low 32 bits of `w`, read as two's complement.
pub open spec fn i32_of_wire(w: u64) -> i32 {
    let low = w % 0x1_0000_0000;
    if low < 0x8000_0000 {
        low as i32
    } else {
        (low - 0x1_0000_0000) as i32
    }
}

/// `w` read as two's complement.
pub open spec fn i64_of_wire(w: u64) -> i64 {
    if w < 0x8000_0000_0000_0000 {
        w as i64
    } else {
        (w - 0x1_0000_0000_0000_0000) as i64
    }
}

/// A value is well formed when its addresses have the right width and its
/// byte strings have a length that the wire can state.
pub open spec fn wf_data(v: TypedDataView) -> bool {
    match v {
        TypedDataView::IPv4(a) => a.len() == 4,
        TypedDataView::IPv6(a) => a.len() == 16,
        TypedDataView::String(s) => encode_utf8(s).len() <= u64::MAX,
        TypedDataView::Binary(b) => b.len() <= u64::MAX,
        _ => true,
    }
}

/// A length prefix followed by the bytes it counts.
pub open spec fn spec_encode_bytes(b: Seq<u8>) -> Seq<u8> {
    spec_encode_varint(b.len() as u64) + b
}

/// The wire form of a value.
pub open spec fn spec_encode_data(v: TypedDataView) -> Seq<u8> {
    match v {
        TypedDataView::Null => seq![TYPE_NULL],
        TypedDataView::Bool(b) => seq![if b { 0x11u8 } else { 0x01u8 }],
        TypedDataView::Int32(x) => seq![TYPE_INT32] + spec_encode_varint(wire_of_i32(x)),
        TypedDataView::UInt32(x) => seq![TYPE_UINT32] + spec_encode_varint(x as u64),
        TypedDataView::Int64(x) => seq![TYPE_INT64] + spec_encode_varint(wire_of_i64(x)),
        TypedDataView::UInt64(x) => seq![TYPE_UINT64] + spec_encode_varint(x),
        TypedDataView::IPv4(a) => seq![TYPE_IPV4] + a,
        TypedDataView::IPv6(a) => seq![TYPE_IPV6] + a,
        TypedDataView::String(s) => seq![TYPE_STRING] + spec_encode_bytes(encode_utf8(s)),
        TypedDataView::Binary(b) => seq![TYPE_BINARY] + spec_encode_bytes(b),
    }
}

/// Inside a frame there is nothing more to wait for: running out of bytes is
/// a truncation.
pub open spec fn within_frame(e: ErrorView) -> ErrorView {
    match e {
        ErrorView::NeedMore => ErrorView::Truncated,
        other => other,
    }
}

/// Reads a length and that many bytes from the start of `s`: the bytes and the
/// total number taken.
pub open spec fn spec_decode_bytes(s: Seq<u8>) -> Result<(Seq<u8>, nat), ErrorView> {
    match spec_decode_varint(s) {
        Ok((len, n)) => if s.len() - n < len {
            Err(ErrorView::Truncated)
        } else {
            Ok((s.subrange(n as int, n + len), n + len as nat))
        },
        Err(e) => Err(within_frame(e)),
    }
}

/// Reads one value from the start of `s`: the value and the number of bytes it
/// occupied.  With `strict`, a string that is not well-formed UTF-8 is
/// rejected; otherwise it is repaired.
#[verifier::opaque]
pub open spec fn spec_decode_data(s: Seq<u8>, strict: bool) -> Result<
    (TypedDataView, nat),
    ErrorView,
> {
    if s.len() == 0 {
        Err(ErrorView::Truncated)
    } else {
        let type_id = s[0] % 16;
        let flags = s[0] / 16;
        let body = s.skip(1);
        if type_id == TYPE_NULL {
            Ok((TypedDataView::Null, 1))
        } else if type_id == TYPE_BOOL {
            Ok((TypedDataView::Bool(flags % 2 == 1), 1))
        } else if type_id <= TYPE_UINT64 {
            match spec_decode_varint(body) {
                Ok((w, n)) => Ok(
                    (
                        if type_id == TYPE_INT32 {
                            TypedDataView::Int32(i32_of_wire(w))
                        } else if type_id == TYPE_UINT32 {
                            TypedDataView::UInt32(u32_of_wire(w))
                        } else if type_id == TYPE_INT64 {
                            TypedDataView::Int64(i64_of_wire(w))
                        } else {
                            TypedDataView::UInt64(w)
                        },
                        n + 1,
                    ),
                ),
                Err(e) => Err(within_frame(e)),
            }
        } else if type_id == TYPE_IPV4 {
            if body.len() < 4 {
                Err(ErrorView::Truncated)
            } else {
                Ok((TypedDataView::IPv4(body.take(4)), 5))
            }
        } else if type_id == TYPE_IPV6 {
            if body.len() < 16 {
                Err(ErrorView::Truncated)
            } else {
                Ok((TypedDataView::IPv6(body.take(16)), 17))
            }
        } else if type_id == TYPE_STRING {
            match spec_decode_bytes(body) {
                Ok((data, n)) => if strict && !valid_utf8(data) {
                    Err(ErrorView::InvalidUtf8)
                } else {
                    Ok((TypedDataView::String(spec_text(data)), n + 1))
                },
                Err(e) => Err(e),
            }
        } else if type_id == TYPE_BINARY {
            match spec_decode_bytes(body) {
                Ok((data, n)) => Ok((TypedDataView::Binary(data), n + 1)),
                Err(e) => Err(e),
            }
        } else {
            Err(ErrorView::UnknownValueType(type_id))
        }
    }
}

/// A length-prefixed byte string decodes to itself, whatever follows it.
pub proof fn lemma_bytes_roundtrip(b: Seq<u8>, rest: Seq<u8>)
    requires
        b.len() <= u64::MAX,
    ensures
        spec_decode_bytes(spec_encode_bytes(b) + rest) == Ok::<(Seq<u8>, nat), ErrorView>(
            (b, spec_encode_bytes(b).len()),
        ),
{
    let prefix = spec_encode_varint(b.len() as u64);
    let s = spec_encode_bytes(b) + rest;
    assert(s =~= prefix + (b + rest));
    lemma_varint_roundtrip(b.len() as u64, b + rest);
    assert(s.subrange(prefix.len() as int, prefix.len() as int + b.len()) =~= b);
}

/// The signed conversions are inverse to each other.
pub proof fn lemma_wire_roundtrip(x32: i32, x64: i64, u: u32)
    ensures
        i32_of_wire(wire_of_i32(x32)) == x32,
        i64_of_wire(wire_of_i64(x64)) == x64,
        u32_of_wire(u as u64) == u,
{
    if x32 < 0 {
        let w = wire_of_i32(x32);
        assert(w == 0x1_0000_0000_0000_0000 + x32);
        assert(w == 0xffff_ffff * 0x1_0000_0000 + (0x1_0000_0000 + x32));
        assert(w % 0x1_0000_0000 == 0x1_0000_0000 + x32);
    }
}

proof fn lemma_integer_roundtrip(v: TypedDataView, rest: Seq<u8>, strict: bool)
    requires
        v is Int32 || v is UInt32 || v is Int64 || v is UInt64,
    ensures
        spec_decode_data(spec_encode_data(v) + rest, strict) == Ok::<
            (TypedDataView, nat),
            ErrorView,
        >((v, spec_encode_data(v).len())),
{
    reveal(spec_decode_data);
    let enc = spec_encode_data(v);
    let s = enc + rest;
    assert(s[0] == enc[0]);
    match v {
        TypedDataView::Int32(x) => {
            assert(s.skip(1) =~= spec_encode_varint(wire_of_i32(x)) + rest);
            lemma_varint_roundtrip(wire_of_i32(x), rest);
            lemma_wire_roundtrip(x, 0, 0);
        },
        TypedDataView::UInt32(x) => {
            assert(s.skip(1) =~= spec_encode_varint(x as u64) + rest);
            lemma_varint_roundtrip(x as u64, rest);
            lemma_wire_roundtrip(0, 0, x);
        },
        TypedDataView::Int64(x) => {
            assert(s.skip(1) =~= spec_encode_varint(wire_of_i64(x)) + rest);
            lemma_varint_roundtrip(wire_of_i64(x), rest);
            lemma_wire_roundtrip(0, x, 0);
        },
        TypedDataView::UInt64(x) => {
            assert(s.skip(1) =~= spec_encode_varint(x) + rest);
            lemma_varint_roundtrip(x, rest);
        },
        _ => {},
    }
}

proof fn lemma_address_roundtrip(v: TypedDataView, rest: Seq<u8>, strict: bool)
    requires
        v is IPv4 || v is IPv6,
        wf_data(v),
    ensures
        spec_decode_data(spec_encode_data(v) + rest, strict) == Ok::<
            (TypedDataView, nat),
            ErrorView,
        >((v, spec_encode_data(v).len())),
{
    reveal(spec_decode_data);
    let enc = spec_encode_data(v);
    let s = enc + rest;
    assert(s[0] == enc[0]);
    match v {
        TypedDataView::IPv4(a) => {
            assert(s.skip(1).take(4) =~= a);
        },
        TypedDataView::IPv6(a) => {
            assert(s.skip(1).take(16) =~= a);
        },
        _ => {},
    }
}

proof fn lemma_string_roundtrip(v: TypedDataView, rest: Seq<u8>, strict: bool)
    requires
        v is String || v is Binary,
        wf_data(v),
    ensures
        spec_decode_data(spec_encode_data(v) + rest, strict) == Ok::<
            (TypedDataView, nat),
            ErrorView,
        >((v, spec_encode_data(v).len())),
{
    reveal(spec_decode_data);
    let enc = spec_encode_data(v);
    let s = enc + rest;
    assert(s[0] == enc[0]);
    match v {
        TypedDataView::String(t) => {
            vstd::utf8::encode_utf8_valid_utf8(t);
            vstd::utf8::encode_utf8_decode_utf8(t);
            assert(s.skip(1) =~= spec_encode_bytes(encode_utf8(t)) + rest);
            lemma_bytes_roundtrip(encode_utf8(t), rest);
        },
        TypedDataView::Binary(b) => {
            assert(s.skip(1) =~= spec_encode_bytes(b) + rest);
            lemma_bytes_roundtrip(b, rest);
        },
        _ => {},
    }
}

/// Every well-formed value decodes to itself, in either mode and whatever
/// bytes follow its encoding.
pub proof fn lemma_data_roundtrip(v: TypedDataView, rest: Seq<u8>, strict: bool)
    requires
        wf_data(v),
    ensures
        spec_decode_data(spec_encode_data(v) + rest, strict) == Ok::<
            (TypedDataView, nat),
            ErrorView,
        >((v, spec_encode_data(v).len())),
{
    reveal(spec_decode_data);
    match v {
        TypedDataView::Null => {
            assert((spec_encode_data(v) + rest)[0] == TYPE_NULL);
        },
        TypedDataView::Bool(b) => {
            assert((spec_encode_data(v) + rest)[0] == if b { 0x11u8 } else { 0x01u8 });
        },
        TypedDataView::Int32(_) | TypedDataView::UInt32(_) | TypedDataView::Int64(
            _,
        ) | TypedDataView::UInt64(_) => {
            lemma_integer_roundtrip(v, rest, strict);
        },
        TypedDataView::IPv4(_) | TypedDataView::IPv6(_) => {
            lemma_address_roundtrip(v, rest, strict);
        },
        TypedDataView::String(_) | TypedDataView::Binary(_) => {
            lemma_string_roundtrip(v, rest, strict);
        },
    }
}

/// A successful decode stays within the input and takes at least one byte.
pub proof fn lemma_decode_data_consumed(s: Seq<u8>, strict: bool)
    ensures
        spec_decode_data(s, strict) matches Ok((_, n)) ==> 1 <= n <= s.len(),
{
    reveal(spec_decode_data);
    if s.len() > 0 {
        crate::varint::lemma_decode_varint_consumed(s.skip(1));
    }
}

/// The executable form of [`within_frame`].
pub fn error_within_frame(e: ProtocolError) -> (res: ProtocolError)
    ensures
        res@ == within_frame(e@),
{
    match e {
        ProtocolError::NeedMore => ProtocolError::Truncated,
        other => other,
    }
}

fn i32_to_wire(x: i32) -> (w: u64)
    ensures
        w == wire_of_i32(x),
{
    if x >= 0 {
        x as u64
    } else {
        u64::MAX - ((-(x + 1)) as u64)
    }
}

fn i64_to_wire(x: i64) -> (w: u64)
    ensures
        w == wire_of_i64(x),
{
    if x >= 0 {
        x as u64
    } else {
        u64::MAX - ((-(x + 1)) as u64)
    }
}

fn i32_from_wire(w: u64) -> (x: i32)
    ensures
        x == i32_of_wire(w),
{
    let low: u64 = w % 0x1_0000_0000;
    if low < 0x8000_0000 {
        low as i32
    } else {
        (low as i64 - 0x1_0000_0000) as i32
    }
}

fn i64_from_wire(w: u64) -> (x: i64)
    ensures
        x == i64_of_wire(w),
{
    if w < 0x8000_0000_0000_0000 {
        w as i64
    } else {
        -((u64::MAX - w) as i64) - 1
    }
}

/// Appends a length prefix and `bytes` to `buf`.
pub fn write_bytes(buf: &mut Vec<u8>, bytes: &[u8])
    ensures
        final(buf)@ == old(buf)@ + spec_encode_bytes(bytes@),
        bytes@.len() <= u64::MAX,
{
    let prefix = encode_varint(bytes.len() as u64);
    append_bytes(buf, prefix.as_slice());
    append_bytes(buf, bytes);
    assert(buf@ =~= old(buf)@ + spec_encode_bytes(bytes@));
}

/// Reads a length prefix and the bytes it counts from the start of `input`,
/// returning what follows and the bytes.
pub fn read_bytes(input: &[u8]) -> (res: Result<(&[u8], &[u8]), ProtocolError>)
    ensures
        match res {
            Ok((rest, data)) => is_suffix(input@, rest@) && spec_decode_bytes(input@) == Ok::<
                (Seq<u8>, nat),
                ErrorView,
            >((data@, taken(input@, rest@))),
            Err(e) => spec_decode_bytes(input@) == Err::<(Seq<u8>, nat), ErrorView>(e@),
        },
{
    match decode_varint(input) {
        Ok((after, len)) => {
            if (after.len() as u64) < len {
                return Err(ProtocolError::Truncated);
            }
            let n: usize = len as usize;
            let data = slice_subrange(after, 0, n);
            let rest = slice_subrange(after, n, after.len());
            proof {
                let k = taken(input@, after@) as int;
                assert(data@ =~= input@.subrange(k, k + len));
                assert(rest@ =~= after@.skip(n as int));
                lemma_suffix_trans(input@, after@, rest@);
            }
            Ok((rest, data))
        },
        Err(e) => Err(error_within_frame(e)),
    }
}

impl TypedData {
    /// Whether the two values are the same.
    pub fn same_as(&self, other: &TypedData) -> (res: bool)
        ensures
            res == (self@ == other@),
    {
        match (self, other) {
            (TypedData::Null, TypedData::Null) => true,
            (TypedData::Bool(a), TypedData::Bool(b)) => *a == *b,
            (TypedData::Int32(a), TypedData::Int32(b)) => *a == *b,
            (TypedData::UInt32(a), TypedData::UInt32(b)) => *a == *b,
            (TypedData::Int64(a), TypedData::Int64(b)) => *a == *b,
            (TypedData::UInt64(a), TypedData::UInt64(b)) => *a == *b,
            (TypedData::IPv4(a), TypedData::IPv4(b)) => bytes_eq(a.as_slice(), b.as_slice()),
            (TypedData::IPv6(a), TypedData::IPv6(b)) => bytes_eq(a.as_slice(), b.as_slice()),
            (TypedData::String(a), TypedData::String(b)) => str_eq(a.as_str(), b.as_str()),
            (TypedData::Binary(a), TypedData::Binary(b)) => bytes_eq(a.as_slice(), b.as_slice()),
            _ => false,
        }
    }

    /// Appends the wire form of the value to `buf`.
    pub fn to_bytes(&self, buf: &mut Vec<u8>)
        ensures
            final(buf)@ == old(buf)@ + spec_encode_data(self@),
            wf_data(self@),
    {
        match self {
            TypedData::Null => {
                buf.push(TYPE_NULL);
            },
            TypedData::Bool(val) => {
                let flags: u8 = if *val {
                    0x10
                } else {
                    0x00
                };
                assert(0x10u8 | 0x01u8 == 0x11u8 && 0x00u8 | 0x01u8 == 0x01u8) by (bit_vector);
                buf.push(flags | TYPE_BOOL);
            },
            TypedData::Int32(val) => {
                buf.push(TYPE_INT32);
                let enc = encode_varint(i32_to_wire(*val));
                append_bytes(buf, enc.as_slice());
            },
            TypedData::UInt32(val) => {
                buf.push(TYPE_UINT32);
                let enc = encode_varint(*val as u64);
                append_bytes(buf, enc.as_slice());
            },
            TypedData::Int64(val) => {
                buf.push(TYPE_INT64);
                let enc = encode_varint(i64_to_wire(*val));
                append_bytes(buf, enc.as_slice());
            },
            TypedData::UInt64(val) => {
                buf.push(TYPE_UINT64);
                let enc = encode_varint(*val);
                append_bytes(buf, enc.as_slice());
            },
            TypedData::IPv4(addr) => {
                buf.push(TYPE_IPV4);
                append_bytes(buf, addr.as_slice());
            },
            TypedData::IPv6(addr) => {
                buf.push(TYPE_IPV6);
                append_bytes(buf, addr.as_slice());
            },
            TypedData::String(val) => {
                buf.push(TYPE_STRING);
                write_bytes(buf, val.as_str().as_bytes());
            },
            TypedData::Binary(val) => {
                buf.push(TYPE_BINARY);
                write_bytes(buf, val.as_slice());
            },
        }
        assert(buf@ =~= old(buf)@ + spec_encode_data(self@));
    }

    /// Decodes one value from the start of `bytes`, repairing malformed text;
    /// `None` where the bytes do not hold a value.
    pub fn from_bytes(bytes: &[u8]) -> (res: Option<Self>)
        ensures
            match res {
                Some(v) => spec_decode_data(bytes@, false) matches Ok((m, _)) && m == v@,
                None => spec_decode_data(bytes@, false) is Err,
            },
    {
        match typed_data(bytes) {
            Ok((_rest, value)) => Some(value),
            Err(_) => None,
        }
    }
}

/// Decodes one value from the start of `input`, returning what follows it and
/// the value.  Text that is not well-formed UTF-8 is repaired.
pub fn typed_data(input: &[u8]) -> (res: Result<(&[u8], TypedData), ProtocolError>)
    ensures
        match res {
            Ok((rest, v)) => is_suffix(input@, rest@) && spec_decode_data(input@, false) == Ok::<
                (TypedDataView, nat),
                ErrorView,
            >((v@, taken(input@, rest@))),
            Err(e) => spec_decode_data(input@, false) == Err::<(TypedDataView, nat), ErrorView>(
                e@,
            ),
        },
{
    decode_data(input, false)
}

/// As [`typed_data`], but text that is not well-formed UTF-8 is an error.
pub fn typed_data_strict(input: &[u8]) -> (res: Result<(&[u8], TypedData), ProtocolError>)
    ensures
        match res {
            Ok((rest, v)) => is_suffix(input@, rest@) && spec_decode_data(input@, true) == Ok::<
                (TypedDataView, nat),
                ErrorView,
            >((v@, taken(input@, rest@))),
            Err(e) => spec_decode_data(input@, true) == Err::<(TypedDataView, nat), ErrorView>(
                e@,
            ),
        },
{
    decode_data(input, true)
}

/// Decodes one value from the start of `input` in the given mode.
pub fn decode_data(input: &[u8], strict: bool) -> (res: Result<(&[u8], TypedData), ProtocolError>)
    ensures
        match res {
            Ok((rest, v)) => is_suffix(input@, rest@) && spec_decode_data(input@, strict) == Ok::<
                (TypedDataView, nat),
                ErrorView,
            >((v@, taken(input@, rest@))),
            Err(e) => spec_decode_data(input@, strict) == Err::<(TypedDataView, nat), ErrorView>(
                e@,
            ),
        },
{
    reveal(spec_decode_data);
    if input.len() == 0 {
        return Err(ProtocolError::Truncated);
    }
    let type_and_flags: u8 = input[0];
    let type_id: u8 = type_and_flags & 0x0f;
    let flags: u8 = type_and_flags >> 4;
    assert(type_and_flags & 0x0f == type_and_flags % 16) by (bit_vector);
    assert(type_and_flags >> 4 == type_and_flags / 16) by (bit_vector);
    assert((flags & 1 != 0) == (flags % 2 == 1)) by (bit_vector);
    let body = slice_subrange(input, 1, input.len());
    proof {
        assert(body@ =~= input@.skip(1));
        lemma_skip_is_suffix(input@, 1);
    }
    if type_id == TYPE_NULL {
        Ok((body, TypedData::Null))
    } else if type_id == TYPE_BOOL {
        Ok((body, TypedData::Bool((flags & 1) != 0)))
    } else if type_id <= TYPE_UINT64 {
        match decode_varint(body) {
            Ok((rest, w)) => {
                let value = if type_id == TYPE_INT32 {
                    TypedData::Int32(i32_from_wire(w))
                } else if type_id == TYPE_UINT32 {
                    TypedData::UInt32((w % 0x1_0000_0000) as u32)
                } else if type_id == TYPE_INT64 {
                    TypedData::Int64(i64_from_wire(w))
                } else {
                    TypedData::UInt64(w)
                };
                proof {
                    lemma_suffix_trans(input@, body@, rest@);
                }
                Ok((rest, value))
            },
            Err(e) => Err(error_within_frame(e)),
        }
    } else if type_id == TYPE_IPV4 {
        if body.len() < 4 {
            return Err(ProtocolError::Truncated);
        }
        let addr: [u8; 4] = [body[0], body[1], body[2], body[3]];
        assert(addr@ =~= body@.take(4));
        let rest = slice_subrange(body, 4, body.len());
        proof {
            assert(rest@ =~= body@.skip(4));
            lemma_suffix_trans(input@, body@, rest@);
        }
        Ok((rest, TypedData::IPv4(addr)))
    } else if type_id == TYPE_IPV6 {
        if body.len() < 16 {
            return Err(ProtocolError::Truncated);
        }
        let addr: [u8; 16] = [
            body[0],
            body[1],
            body[2],
            body[3],
            body[4],
            body[5],
            body[6],
            body[7],
            body[8],
            body[9],
            body[10],
            body[11],
            body[12],
            body[13],
            body[14],
            body[15],
        ];
        assert(addr@ =~= body@.take(16));
        let rest = slice_subrange(body, 16, body.len());
        proof {
            assert(rest@ =~= body@.skip(16));
            lemma_suffix_trans(input@, body@, rest@);
        }
        Ok((rest, TypedData::IPv6(addr)))
    } else if type_id == TYPE_STRING {
        match read_bytes(body) {
            Ok((rest, data)) => {
                proof {
                    lemma_suffix_trans(input@, body@, rest@);
                }
                if strict {
                    match text_from_utf8(data) {
                        Some(text) => Ok((rest, TypedData::String(text))),
                        None => Err(ProtocolError::InvalidUtf8),
                    }
                } else {
                    Ok((rest, TypedData::String(text_from_utf8_lossy(data))))
                }
            },
            Err(e) => Err(e),
        }
    } else if type_id == TYPE_BINARY {
        match read_bytes(body) {
            Ok((rest, data)) => {
                proof {
                    lemma_suffix_trans(input@, body@, rest@);
                }
                Ok((rest, TypedData::Binary(slice_to_vec(data))))
            },
            Err(e) => Err(e),
        }
    } else {
        Err(ProtocolError::UnknownValueType(type_id))
    }
}

} // verus!
