//! Protocol versions: how they are written, read and agreed on.
//!
//! On the wire a version is `major.minor`.  Reading is left to the `semver`
//! crate, after the missing patch number has been added.

use vstd::prelude::*;
use crate::error::{ErrorView, ProtocolError};
use crate::text::{
    join_chars, push_chars, push_decimal, spec_decimal, spec_join, spec_split, spec_trim,
    split_chars, text_chars, text_from_chars, trim_chars,
};

verus! {

/// Makes `semver::Error` known to the verifier, as a type whose inside it
/// does not see.
#[verifier::external_type_specification]
#[verifier::external_body]
pub struct ExSemverError(semver::Error);

/// What `semver::Version::parse` makes of `text`: the three numbers of the
/// version, where `text` is a semantic version.
pub uninterp spec fn semver_parse(text: Seq<char>) -> Option<(u64, u64, u64)>;

/// `semver::Version::parse`, keeping the three numbers of the version.
///
/// Trusted: whether the text is accepted, and the numbers of the version if
/// it is, are a fixed function of the text.
#[verifier::external_body]
pub(crate) fn semver_version_parse(text: &str) -> (res: Result<(u64, u64, u64), semver::Error>)
    ensures
        match res {
            Ok(numbers) => semver_parse(text@) == Some(numbers),
            Err(_) => semver_parse(text@) is None,
        },
{
    semver::Version::parse(text).map(|v| (v.major, v.minor, v.patch))
}

/// A protocol version.
#[derive(Debug, Clone, Copy, PartialEq, Eq, Structural)]
pub struct Version {
    pub major: u64,
    pub minor: u64,
    pub patch: u64,
}

/// The number of occurrences of `c` in `s`.
pub open spec fn spec_count(s: Seq<char>, c: char) -> nat
    decreases s.len(),
{
    if s.len() == 0 {
        0
    } else {
        spec_count(s.drop_last(), c) + if s.last() == c {
            1nat
        } else {
            0nat
        }
    }
}

/// A token made ready for reading: `major.minor` gets the patch number `0`.
pub open spec fn spec_pad(token: Seq<char>) -> Seq<char> {
    if spec_count(token, '.') == 1 {
        token + seq!['.', '0']
    } else {
        token
    }
}

/// The version that a token stands for, once trimmed.
pub open spec fn spec_parse_version(token: Seq<char>) -> Result<Version, ErrorView> {
    match semver_parse(spec_pad(token)) {
        Some((major, minor, patch)) => Ok(Version { major, minor, patch }),
        None => Err(ErrorView::InvalidVersion(token)),
    }
}

/// The versions that the tokens stand for, in order.  The first token that
/// is no version is the error.
pub open spec fn spec_versions_of(tokens: Seq<Seq<char>>) -> Result<Seq<Version>, ErrorView>
    decreases tokens.len(),
{
    if tokens.len() == 0 {
        Ok(Seq::empty())
    } else {
        match spec_versions_of(tokens.drop_last()) {
            Ok(before) => match spec_parse_version(spec_trim(tokens.last())) {
                Ok(v) => Ok(before.push(v)),
                Err(e) => Err(e),
            },
            Err(e) => Err(e),
        }
    }
}

/// The versions that a comma-separated list announces.
pub open spec fn spec_parse_versions(text: Seq<char>) -> Result<Seq<Version>, ErrorView> {
    spec_versions_of(spec_split(text, ','))
}

/// A version as it is written on the wire: `major.minor`.
pub open spec fn spec_version_text(v: Version) -> Seq<char> {
    spec_decimal(v.major as nat) + seq!['.'] + spec_decimal(v.minor as nat)
}

/// The list of versions as it is written on the wire.
pub open spec fn spec_versions_text(vs: Seq<Version>) -> Seq<char> {
    spec_join(vs.map_values(|v: Version| spec_version_text(v)), seq![',', ' '])
}

/// Some version of the list has the given major and minor numbers.
pub open spec fn offers(versions: Seq<Version>, major: u64, minor: u64) -> bool {
    exists|i: int|
        0 <= i < versions.len() && (#[trigger] versions[i]).major == major && versions[i].minor
            == minor
}

/// Version `a.b` is newer than version `c.d`.
pub open spec fn newer(a: u64, b: u64, c: u64, d: u64) -> bool {
    a > c || (a == c && b > d)
}

/// `chosen` is the newest `major.minor` that both lists offer, or nothing
/// where they have none in common.
pub open spec fn is_selection(
    peer: Seq<Version>,
    local: Seq<Version>,
    chosen: Option<(u64, u64)>,
) -> bool {
    match chosen {
        Some((major, minor)) => offers(peer, major, minor) && offers(local, major, minor)
            && forall|a: u64, b: u64|
            #![trigger offers(peer, a, b)]
            offers(peer, a, b) && offers(local, a, b) ==> !newer(a, b, major, minor),
        None => forall|a: u64, b: u64|
            #![trigger offers(peer, a, b)]
            !(offers(peer, a, b) && offers(local, a, b)),
    }
}

/// The newest `major.minor` of `peer` that `local` offers too.
pub open spec fn spec_select(peer: Seq<Version>, local: Seq<Version>) -> Option<(u64, u64)>
    decreases peer.len(),
{
    if peer.len() == 0 {
        None
    } else {
        let before = spec_select(peer.drop_last(), local);
        let v = peer.last();
        if offers(local, v.major, v.minor) && (before matches Some((major, minor)) ==> newer(
            v.major,
            v.minor,
            major,
            minor,
        )) {
            Some((v.major, v.minor))
        } else {
            before
        }
    }
}

/// **Version selection.**  What `spec_select` gives is offered by both peers
/// and no version that both offer is newer; it gives nothing only where the
/// peers have no version in common.
pub proof fn lemma_select_is_selection(peer: Seq<Version>, local: Seq<Version>)
    ensures
        is_selection(peer, local, spec_select(peer, local)),
    decreases peer.len(),
{
    if peer.len() > 0 {
        let seen = peer.drop_last();
        let v = peer.last();
        lemma_select_is_selection(seen, local);
        assert forall|a: u64, b: u64| offers(peer, a, b) implies offers(seen, a, b) || (a
            == v.major && b == v.minor) by {
            let k = choose|k: int|
                0 <= k < peer.len() && (#[trigger] peer[k]).major == a && peer[k].minor == b;
            if k < peer.len() - 1 {
                assert(seen[k] == peer[k]);
            }
        }
        assert forall|a: u64, b: u64| offers(seen, a, b) implies offers(peer, a, b) by {
            let k = choose|k: int|
                0 <= k < seen.len() && (#[trigger] seen[k]).major == a && seen[k].minor == b;
            assert(peer[k] == seen[k]);
        }
        assert(peer[peer.len() - 1] == v);
    }
}

fn count_char(chars: &[char], c: char) -> (n: usize)
    ensures
        n == spec_count(chars@, c),
{
    let mut n: usize = 0;
    let mut i: usize = 0;
    assert(chars@.take(0) =~= Seq::<char>::empty());
    while i < chars.len()
        invariant
            0 <= i <= chars@.len(),
            n <= i,
            n == spec_count(chars@.take(i as int), c),
        decreases chars@.len() - i,
    {
        proof {
            let next = chars@.take(i + 1);
            assert(next.drop_last() =~= chars@.take(i as int));
        }
        if chars[i] == c {
            n = n + 1;
        }
        i = i + 1;
    }
    assert(chars@.take(i as int) =~= chars@);
    n
}

impl Version {
    /// The version with the given numbers.
    pub fn new(major: u64, minor: u64, patch: u64) -> (res: Self)
        ensures
            res == (Version { major, minor, patch }),
    {
        Version { major, minor, patch }
    }

    /// The version that a trimmed token stands for.  A token with a single
    /// dot is read as `major.minor`.
    pub fn parse(token: &[char]) -> (res: Result<Version, ProtocolError>)
        ensures
            match res {
                Ok(v) => spec_parse_version(token@) == Ok::<Version, ErrorView>(v),
                Err(e) => spec_parse_version(token@) == Err::<Version, ErrorView>(e@),
            },
    {
        let mut padded: Vec<char> = Vec::new();
        push_chars(&mut padded, token);
        if count_char(token, '.') == 1 {
            padded.push('.');
            padded.push('0');
        }
        assert(padded@ =~= spec_pad(token@));
        let text = text_from_chars(padded.as_slice());
        match semver_version_parse(text.as_str()) {
            Ok((major, minor, patch)) => Ok(Version { major, minor, patch }),
            Err(_) => Err(ProtocolError::InvalidVersion(text_from_chars(token))),
        }
    }

    /// The version as it is written on the wire: `major.minor`.
    pub fn to_text(&self) -> (out: Vec<char>)
        ensures
            out@ == spec_version_text(*self),
    {
        let mut out: Vec<char> = Vec::new();
        push_decimal(&mut out, self.major);
        out.push('.');
        push_decimal(&mut out, self.minor);
        assert(out@ =~= spec_version_text(*self));
        out
    }
}

/// The versions that the comma-separated list `text` announces.
pub fn parse_versions(text: &str) -> (res: Result<Vec<Version>, ProtocolError>)
    ensures
        match res {
            Ok(versions) => spec_parse_versions(text@) == Ok::<Seq<Version>, ErrorView>(versions@),
            Err(e) => spec_parse_versions(text@) == Err::<Seq<Version>, ErrorView>(e@),
        },
{
    let chars = text_chars(text);
    let tokens = split_chars(chars.as_slice(), ',');
    let ghost all = tokens@.map_values(|p: Vec<char>| p@);
    let mut versions: Vec<Version> = Vec::new();
    let mut i: usize = 0;
    assert(all.take(0) =~= Seq::<Seq<char>>::empty());
    while i < tokens.len()
        invariant
            0 <= i <= tokens@.len(),
            all == tokens@.map_values(|p: Vec<char>| p@),
            all == spec_split(text@, ','),
            spec_versions_of(all.take(i as int)) == Ok::<Seq<Version>, ErrorView>(versions@),
        decreases tokens@.len() - i,
    {
        let trimmed = trim_chars(tokens[i].as_slice());
        proof {
            let next = all.take(i + 1);
            assert(next.drop_last() =~= all.take(i as int));
            assert(next.last() == tokens@[i as int]@);
        }
        match Version::parse(trimmed) {
            Ok(v) => {
                versions.push(v);
            },
            Err(e) => {
                proof {
                    let next = all.take(i + 1);
                    assert(spec_parse_version(spec_trim(next.last())) == Err::<
                        Version,
                        ErrorView,
                    >(e@));
                    assert(spec_versions_of(next) == Err::<Seq<Version>, ErrorView>(e@));
                    lemma_versions_error_stays(all, i + 1);
                }
                return Err(e);
            },
        }
        i = i + 1;
    }
    assert(all.take(i as int) =~= all);
    Ok(versions)
}

/// An error among the first `n` tokens is the error of the whole list.
pub proof fn lemma_versions_error_stays(tokens: Seq<Seq<char>>, n: int)
    requires
        0 <= n <= tokens.len(),
        spec_versions_of(tokens.take(n)) is Err,
    ensures
        spec_versions_of(tokens) == spec_versions_of(tokens.take(n)),
    decreases tokens.len(),
{
    if n < tokens.len() {
        assert(tokens.drop_last().take(n) =~= tokens.take(n));
        lemma_versions_error_stays(tokens.drop_last(), n);
    } else {
        assert(tokens.take(n) =~= tokens);
    }
}

/// The list of versions as it is written on the wire.
pub fn versions_text(versions: &Vec<Version>) -> (text: String)
    ensures
        text@ == spec_versions_text(versions@),
{
    let mut parts: Vec<Vec<char>> = Vec::new();
    let mut i: usize = 0;
    while i < versions.len()
        invariant
            0 <= i <= versions@.len(),
            parts@.len() == i,
            forall|k: int| 0 <= k < i ==> (#[trigger] parts@[k])@ == spec_version_text(versions@[k]),
        decreases versions@.len() - i,
    {
        parts.push(versions[i].to_text());
        i = i + 1;
    }
    let sep: [char; 2] = [',', ' '];
    let joined = join_chars(&parts, sep.as_slice());
    proof {
        assert(parts@.map_values(|p: Vec<char>| p@) =~= versions@.map_values(
            |v: Version| spec_version_text(v),
        ));
        assert(sep@ =~= seq![',', ' ']);
    }
    text_from_chars(joined.as_slice())
}

/// Whether `versions` holds a version `major.minor`.
pub fn offers_version(versions: &Vec<Version>, major: u64, minor: u64) -> (res: bool)
    ensures
        res == offers(versions@, major, minor),
{
    let mut i: usize = 0;
    while i < versions.len()
        invariant
            0 <= i <= versions@.len(),
            forall|k: int|
                0 <= k < i ==> !((#[trigger] versions@[k]).major == major && versions@[k].minor
                    == minor),
        decreases versions@.len() - i,
    {
        if versions[i].major == major && versions[i].minor == minor {
            return true;
        }
        i = i + 1;
    }
    false
}

/// The newest `major.minor` that both peers offer.
pub fn select_version(peer: &Vec<Version>, local: &Vec<Version>) -> (chosen: Option<(u64, u64)>)
    ensures
        chosen == spec_select(peer@, local@),
        is_selection(peer@, local@, chosen),
{
    let mut best: Option<(u64, u64)> = None;
    let mut i: usize = 0;
    assert(peer@.take(0) =~= Seq::<Version>::empty());
    while i < peer.len()
        invariant
            0 <= i <= peer@.len(),
            best == spec_select(peer@.take(i as int), local@),
        decreases peer@.len() - i,
    {
        let v = peer[i];
        proof {
            let next = peer@.take(i + 1);
            assert(next.drop_last() =~= peer@.take(i as int));
            assert(next.last() == v);
        }
        let candidate = offers_version(local, v.major, v.minor);
        let better = match best {
            None => true,
            Some((major, minor)) => v.major > major || (v.major == major && v.minor > minor),
        };
        if candidate && better {
            best = Some((v.major, v.minor));
        }
        i = i + 1;
    }
    proof {
        assert(peer@.take(i as int) =~= peer@);
        lemma_select_is_selection(peer@, local@);
    }
    best
}

} // verus!
