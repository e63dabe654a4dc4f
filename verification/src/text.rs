//! Conversions between bytes and text.
//!
//! Text travels on the wire as UTF-8.  Validation and lossy repair are left to
//! the standard library; this module states what the codec relies on.

use vstd::prelude::*;
use vstd::utf8::{decode_utf8, encode_utf8, valid_utf8};

verus! {

/// What lossy UTF-8 decoding makes of `bytes`: the text itself where the bytes
/// are well formed, and otherwise the text with each malformed part replaced
/// by U+FFFD.
pub uninterp spec fn lossy_text(bytes: Seq<u8>) -> Seq<char>;

/// The text that a string field carries under lenient decoding.
pub open spec fn spec_text(bytes: Seq<u8>) -> Seq<char> {
    if valid_utf8(bytes) {
        decode_utf8(bytes)
    } else {
        lossy_text(bytes)
    }
}

/// `String::from_utf8_lossy`, with the result made owned.
///
/// Trusted: the result is what the standard library's lossy decoding yields,
/// which for well-formed UTF-8 is the decoded text unchanged.
#[verifier::external_body]
pub(crate) fn text_from_utf8_lossy(bytes: &[u8]) -> (s: String)
    ensures
        s@ == lossy_text(bytes@),
        valid_utf8(bytes@) ==> s@ == decode_utf8(bytes@),
{
    String::from_utf8_lossy(bytes).into_owned()
}

/// `std::str::from_utf8`, with the result made owned.
///
/// Trusted: the standard library accepts exactly the well-formed UTF-8
/// sequences and returns their text.
#[verifier::external_body]
pub(crate) fn text_from_utf8(bytes: &[u8]) -> (r: Option<String>)
    ensures
        r is Some <==> valid_utf8(bytes@),
        r matches Some(s) ==> s@ == decode_utf8(bytes@),
{
    match std::str::from_utf8(bytes) {
        Ok(s) => Some(s.to_owned()),
        Err(_) => None,
    }
}

/// Appends `bytes` to `buf`.
pub fn append_bytes(buf: &mut Vec<u8>, bytes: &[u8])
    ensures
        final(buf)@ == old(buf)@ + bytes@,
{
    buf.extend_from_slice(bytes);
    assert(buf@ =~= old(buf)@ + bytes@);
}

/// Whether two byte strings are the same.
pub fn bytes_eq(x: &[u8], y: &[u8]) -> (res: bool)
    ensures
        res == (x@ == y@),
{
    if x.len() != y.len() {
        return false;
    }
    let mut i: usize = 0;
    while i < x.len()
        invariant
            x@.len() == y@.len(),
            0 <= i <= x@.len(),
            forall|k: int| 0 <= k < i ==> x@[k] == y@[k],
        decreases x@.len() - i,
    {
        if x[i] != y[i] {
            return false;
        }
        i = i + 1;
    }
    assert(x@ =~= y@);
    true
}

/// Whether two strings hold the same text.
pub fn str_eq(a: &str, b: &str) -> (res: bool)
    ensures
        res == (a@ == b@),
{
    proof {
        vstd::utf8::encode_utf8_decode_utf8(a@);
        vstd::utf8::encode_utf8_decode_utf8(b@);
    }
    bytes_eq(a.as_bytes(), b.as_bytes())
}

/// Whether `c` is white space in the sense of the Unicode property
/// `White_Space`, as `char::is_whitespace` decides it.
pub uninterp spec fn is_whitespace(c: char) -> bool;

/// The lower-case form of `text`, as `str::to_lowercase` computes it.
pub uninterp spec fn lowercase(text: Seq<char>) -> Seq<char>;

/// `char::is_whitespace`.
///
/// Trusted: the answer is a fixed property of the character.
#[verifier::external_body]
pub(crate) fn char_is_whitespace(c: char) -> (b: bool)
    ensures
        b == is_whitespace(c),
{
    c.is_whitespace()
}

/// `str::to_lowercase`.
///
/// Trusted: the result is a fixed function of the text.
#[verifier::external_body]
pub(crate) fn text_to_lowercase(s: &str) -> (r: String)
    ensures
        r@ == lowercase(s@),
{
    s.to_lowercase()
}

/// The characters of a string, as a vector.
pub fn text_chars(s: &str) -> (r: Vec<char>)
    ensures
        r@ == s@,
{
    broadcast use vstd::string::group_string_axioms;

    let mut out: Vec<char> = Vec::new();
    for c in it: s.chars()
        invariant
            it.seq() == s@,
            out@ == s@.take(it.index() as int),
    {
        out.push(c);
        assert(out@ =~= s@.take(it.index() + 1));
    }
    assert(out@ =~= s@);
    out
}

/// `String::from_iter` over characters: the string made of the given
/// characters.
///
/// Trusted: the string holds the given characters in order.
#[verifier::external_body]
pub(crate) fn text_from_chars(chars: &[char]) -> (r: String)
    ensures
        r@ == chars@,
{
    String::from_iter(chars.iter())
}

/// The position of the first `c` in `s`, or the length of `s` if there is
/// none.
pub open spec fn spec_find(s: Seq<char>, c: char) -> int
    decreases s.len(),
{
    if s.len() == 0 {
        0
    } else if s[0] == c {
        0
    } else {
        1 + spec_find(s.skip(1), c)
    }
}

/// `spec_find` gives a position within bounds, with no `c` before it and, if
/// it is not the end, `c` at it.
pub proof fn lemma_find(s: Seq<char>, c: char)
    ensures
        0 <= spec_find(s, c) <= s.len(),
        forall|i: int| 0 <= i < spec_find(s, c) ==> s[i] != c,
        spec_find(s, c) < s.len() ==> s[spec_find(s, c)] == c,
    decreases s.len(),
{
    if s.len() > 0 && s[0] != c {
        lemma_find(s.skip(1), c);
        assert forall|i: int| 0 <= i < spec_find(s, c) implies s[i] != c by {
            if i > 0 {
                assert(s.skip(1)[i - 1] == s[i]);
            }
        }
    }
}

/// The position characterised as in [`lemma_find`] is the one `spec_find`
/// gives.
pub proof fn lemma_find_is(s: Seq<char>, c: char, at: int)
    requires
        0 <= at <= s.len(),
        forall|i: int| 0 <= i < at ==> s[i] != c,
        at < s.len() ==> s[at] == c,
    ensures
        spec_find(s, c) == at,
{
    lemma_find(s, c);
    let found = spec_find(s, c);
    if found < at {
        assert(s[found] != c);
    }
}

/// The pieces of `s` between occurrences of `sep`.  There is always at least
/// one piece; a separator at the end is followed by an empty piece.
pub open spec fn spec_split(s: Seq<char>, sep: char) -> Seq<Seq<char>>
    decreases s.len(),
    via spec_split_decreases
{
    let at = spec_find(s, sep);
    if at >= s.len() {
        seq![s]
    } else {
        seq![s.take(at)] + spec_split(s.skip(at + 1), sep)
    }
}

#[via_fn]
proof fn spec_split_decreases(s: Seq<char>, sep: char) {
    lemma_find(s, sep);
}

/// The number of leading white-space characters of `s`.
pub open spec fn spec_leading_space(s: Seq<char>) -> int
    decreases s.len(),
{
    if s.len() > 0 && is_whitespace(s[0]) {
        1 + spec_leading_space(s.skip(1))
    } else {
        0
    }
}

/// The number of trailing white-space characters of `s`.
pub open spec fn spec_trailing_space(s: Seq<char>) -> int
    decreases s.len(),
{
    if s.len() > 0 && is_whitespace(s.last()) {
        1 + spec_trailing_space(s.drop_last())
    } else {
        0
    }
}

/// `s` without its leading and trailing white space.
pub open spec fn spec_trim(s: Seq<char>) -> Seq<char> {
    let start = spec_leading_space(s);
    let tail = s.skip(start);
    tail.take(tail.len() - spec_trailing_space(tail))
}

/// The leading white space is a run of white-space characters that ends at a
/// character that is none, or at the end.
pub proof fn lemma_leading_space(s: Seq<char>)
    ensures
        0 <= spec_leading_space(s) <= s.len(),
        forall|i: int| 0 <= i < spec_leading_space(s) ==> is_whitespace(s[i]),
        spec_leading_space(s) < s.len() ==> !is_whitespace(s[spec_leading_space(s)]),
    decreases s.len(),
{
    if s.len() > 0 && is_whitespace(s[0]) {
        lemma_leading_space(s.skip(1));
        assert forall|i: int| 0 <= i < spec_leading_space(s) implies is_whitespace(s[i]) by {
            if i > 0 {
                assert(s.skip(1)[i - 1] == s[i]);
            }
        }
    }
}

/// The trailing white space is a run of white-space characters that starts
/// after a character that is none, or at the start.
pub proof fn lemma_trailing_space(s: Seq<char>)
    ensures
        0 <= spec_trailing_space(s) <= s.len(),
        forall|i: int| s.len() - spec_trailing_space(s) <= i < s.len() ==> is_whitespace(s[i]),
        spec_trailing_space(s) < s.len() ==> !is_whitespace(
            s[s.len() - spec_trailing_space(s) - 1],
        ),
    decreases s.len(),
{
    if s.len() > 0 && is_whitespace(s.last()) {
        lemma_trailing_space(s.drop_last());
        assert forall|i: int| s.len() - spec_trailing_space(s) <= i < s.len() implies is_whitespace(
            s[i],
        ) by {
            if i < s.len() - 1 {
                assert(s.drop_last()[i] == s[i]);
            }
        }
    }
}

/// The run characterised as in [`lemma_leading_space`] is the leading white
/// space.
pub proof fn lemma_leading_space_is(s: Seq<char>, n: int)
    requires
        0 <= n <= s.len(),
        forall|i: int| 0 <= i < n ==> is_whitespace(s[i]),
        n < s.len() ==> !is_whitespace(s[n]),
    ensures
        spec_leading_space(s) == n,
{
    lemma_leading_space(s);
    let m = spec_leading_space(s);
    if m < n {
        assert(is_whitespace(s[m]));
    } else if n < m {
        assert(is_whitespace(s[n]));
    }
}

/// The run characterised as in [`lemma_trailing_space`] is the trailing white
/// space.
pub proof fn lemma_trailing_space_is(s: Seq<char>, n: int)
    requires
        0 <= n <= s.len(),
        forall|i: int| s.len() - n <= i < s.len() ==> is_whitespace(s[i]),
        n < s.len() ==> !is_whitespace(s[s.len() - n - 1]),
    ensures
        spec_trailing_space(s) == n,
{
    lemma_trailing_space(s);
    let m = spec_trailing_space(s);
    if m < n {
        assert(is_whitespace(s[s.len() - m - 1]));
    } else if n < m {
        assert(is_whitespace(s[s.len() - n - 1]));
    }
}

/// Cuts `chars` at every `sep`.
pub fn split_chars(chars: &[char], sep: char) -> (pieces: Vec<Vec<char>>)
    ensures
        pieces@.map_values(|p: Vec<char>| p@) == spec_split(chars@, sep),
{
    let mut pieces: Vec<Vec<char>> = Vec::new();
    let mut current: Vec<char> = Vec::new();
    let mut start: usize = 0;
    let mut i: usize = 0;
    let ghost view = |p: Vec<char>| p@;
    assert(chars@.skip(0) =~= chars@);
    assert(pieces@.map_values(view) =~= Seq::<Seq<char>>::empty());
    while i < chars.len()
        invariant
            0 <= start <= i <= chars@.len(),
            view == |p: Vec<char>| p@,
            current@ == chars@.subrange(start as int, i as int),
            forall|k: int| start <= k < i ==> chars@[k] != sep,
            spec_split(chars@, sep) == pieces@.map_values(view) + spec_split(
                chars@.skip(start as int),
                sep,
            ),
        decreases chars@.len() - i,
    {
        let c = chars[i];
        if c == sep {
            proof {
                let tail = chars@.skip(start as int);
                lemma_find_is(tail, sep, i - start);
                assert(tail.take(i - start) =~= current@);
                assert(tail.skip(i - start + 1) =~= chars@.skip(i + 1));
                let done = pieces@.map_values(view);
                assert(pieces@.push(current).map_values(view) =~= done.push(current@));
                assert(done.push(current@) + spec_split(chars@.skip(i + 1), sep) =~= done + (
                seq![current@] + spec_split(chars@.skip(i + 1), sep)));
            }
            pieces.push(current);
            current = Vec::new();
            start = i + 1;
            assert(current@ =~= chars@.subrange(start as int, i + 1));
        } else {
            current.push(c);
            assert(current@ =~= chars@.subrange(start as int, i + 1));
        }
        i = i + 1;
    }
    proof {
        let tail = chars@.skip(start as int);
        lemma_find_is(tail, sep, tail.len() as int);
        assert(tail =~= current@);
        let done = pieces@.map_values(view);
        assert(pieces@.push(current).map_values(view) =~= done.push(current@));
        assert(done.push(current@) =~= done + seq![current@]);
    }
    pieces.push(current);
    pieces
}

/// `chars` without its leading and trailing white space.
pub fn trim_chars(chars: &[char]) -> (res: &[char])
    ensures
        res@ == spec_trim(chars@),
{
    let mut start: usize = 0;
    while start < chars.len() && char_is_whitespace(chars[start])
        invariant
            0 <= start <= chars@.len(),
            forall|i: int| 0 <= i < start ==> is_whitespace(chars@[i]),
        decreases chars@.len() - start,
    {
        start = start + 1;
    }
    proof {
        lemma_leading_space_is(chars@, start as int);
    }
    let mut end: usize = chars.len();
    while end > start && char_is_whitespace(chars[end - 1])
        invariant
            start <= end <= chars@.len(),
            forall|i: int| end <= i < chars@.len() ==> is_whitespace(chars@[i]),
        decreases end,
    {
        end = end - 1;
    }
    proof {
        let tail = chars@.skip(start as int);
        assert forall|i: int| tail.len() - (chars@.len() - end) <= i < tail.len() implies is_whitespace(
            tail[i],
        ) by {
            assert(tail[i] == chars@[i + start]);
        }
        if end > start {
            assert(tail[end - start - 1] == chars@[end - 1]);
        }
        lemma_trailing_space_is(tail, chars@.len() - end);
        assert(chars@.subrange(start as int, end as int) =~= spec_trim(chars@));
    }
    vstd::slice::slice_subrange(chars, start, end)
}

/// The character of the decimal digit `d`.
pub open spec fn spec_digit(d: nat) -> char {
    if d == 0 {
        '0'
    } else if d == 1 {
        '1'
    } else if d == 2 {
        '2'
    } else if d == 3 {
        '3'
    } else if d == 4 {
        '4'
    } else if d == 5 {
        '5'
    } else if d == 6 {
        '6'
    } else if d == 7 {
        '7'
    } else if d == 8 {
        '8'
    } else {
        '9'
    }
}

/// The decimal numeral of `n`, without leading zeros.
pub open spec fn spec_decimal(n: nat) -> Seq<char>
    decreases n,
{
    if n < 10 {
        seq![spec_digit(n)]
    } else {
        spec_decimal(n / 10).push(spec_digit(n % 10))
    }
}

/// The pieces of `parts` with `sep` between each two.
pub open spec fn spec_join(parts: Seq<Seq<char>>, sep: Seq<char>) -> Seq<char>
    decreases parts.len(),
{
    if parts.len() == 0 {
        Seq::empty()
    } else if parts.len() == 1 {
        parts[0]
    } else {
        spec_join(parts.drop_last(), sep) + sep + parts.last()
    }
}

fn digit_char(d: u64) -> (c: char)
    requires
        d < 10,
    ensures
        c == spec_digit(d as nat),
{
    if d == 0 {
        '0'
    } else if d == 1 {
        '1'
    } else if d == 2 {
        '2'
    } else if d == 3 {
        '3'
    } else if d == 4 {
        '4'
    } else if d == 5 {
        '5'
    } else if d == 6 {
        '6'
    } else if d == 7 {
        '7'
    } else if d == 8 {
        '8'
    } else {
        '9'
    }
}

/// Appends the decimal numeral of `n` to `out`.
pub fn push_decimal(out: &mut Vec<char>, n: u64)
    ensures
        final(out)@ == old(out)@ + spec_decimal(n as nat),
    decreases n,
{
    if n >= 10 {
        push_decimal(out, n / 10);
    }
    out.push(digit_char(n % 10));
    assert(out@ =~= old(out)@ + spec_decimal(n as nat));
}

/// Appends `chars` to `out`.
pub fn push_chars(out: &mut Vec<char>, chars: &[char])
    ensures
        final(out)@ == old(out)@ + chars@,
{
    let mut i: usize = 0;
    while i < chars.len()
        invariant
            0 <= i <= chars@.len(),
            out@ == old(out)@ + chars@.take(i as int),
        decreases chars@.len() - i,
    {
        out.push(chars[i]);
        assert(out@ =~= old(out)@ + chars@.take(i + 1));
        i = i + 1;
    }
    assert(chars@.take(i as int) =~= chars@);
}

/// Joins `parts` with `sep` between each two.
pub fn join_chars(parts: &Vec<Vec<char>>, sep: &[char]) -> (out: Vec<char>)
    ensures
        out@ == spec_join(parts@.map_values(|p: Vec<char>| p@), sep@),
{
    let ghost view = |p: Vec<char>| p@;
    let ghost all = parts@.map_values(view);
    let mut out: Vec<char> = Vec::new();
    let mut i: usize = 0;
    assert(all.take(0) =~= Seq::<Seq<char>>::empty());
    while i < parts.len()
        invariant
            0 <= i <= parts@.len(),
            all == parts@.map_values(|p: Vec<char>| p@),
            out@ == spec_join(all.take(i as int), sep@),
        decreases parts@.len() - i,
    {
        let ghost before = out@;
        if i > 0 {
            push_chars(&mut out, sep);
        }
        push_chars(&mut out, parts[i].as_slice());
        proof {
            let next = all.take(i + 1);
            assert(next.drop_last() =~= all.take(i as int));
            assert(next.last() == parts@[i as int]@);
            if i == 0 {
                assert(out@ =~= next[0]);
            }
        }
        i = i + 1;
    }
    assert(all.take(i as int) =~= all);
    out
}

} // verus!
