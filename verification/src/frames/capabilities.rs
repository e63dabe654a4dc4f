//! Capabilities that the peers announce in their hello frames.
//!
//! A capability list is a comma-separated string.  White space around a
//! token is ignored, case is ignored, and a token that names no known
//! capability is dropped.

use vstd::prelude::*;
use vstd::string::StringExecFns;
use crate::text::{
    join_chars, lowercase, spec_join, spec_split, spec_trim, split_chars, str_eq, text_chars,
    text_from_chars, text_to_lowercase, trim_chars,
};

verus! {

/// A capability of a peer.
#[derive(Debug, Clone, Copy, PartialEq, Eq, Structural)]
pub enum FrameCapabilities {
    /// A NOTIFY may be sent before the ACK of an earlier one has arrived,
    /// and ACKs may come in any order.
    Pipelining,
}

/// The capability that a lower-case token names.
pub open spec fn spec_capability(lowered: Seq<char>) -> Option<FrameCapabilities> {
    if lowered == "pipelining"@ {
        Some(FrameCapabilities::Pipelining)
    } else {
        None
    }
}

/// The capability that a token names, whatever its case.
pub open spec fn spec_parse_capability(token: Seq<char>) -> Option<FrameCapabilities> {
    spec_capability(lowercase(token))
}

/// The name of a capability.
pub open spec fn spec_capability_name(c: FrameCapabilities) -> Seq<char> {
    match c {
        FrameCapabilities::Pipelining => "pipelining"@,
    }
}

/// The capabilities that the tokens name, in order; tokens are trimmed, and
/// those that name none are left out.
pub open spec fn spec_capabilities_of(tokens: Seq<Seq<char>>) -> Seq<FrameCapabilities>
    decreases tokens.len(),
{
    if tokens.len() == 0 {
        Seq::empty()
    } else {
        let before = spec_capabilities_of(tokens.drop_last());
        match spec_parse_capability(spec_trim(tokens.last())) {
            Some(c) => before.push(c),
            None => before,
        }
    }
}

/// The capabilities that a comma-separated list names.
pub open spec fn spec_parse_capabilities(text: Seq<char>) -> Seq<FrameCapabilities> {
    spec_capabilities_of(spec_split(text, ','))
}

/// The comma-separated list of the names of `caps`.
pub open spec fn spec_capabilities_text(caps: Seq<FrameCapabilities>) -> Seq<char> {
    spec_join(caps.map_values(|c: FrameCapabilities| spec_capability_name(c)), seq![','])
}

impl FrameCapabilities {
    /// The capability that a token names, once the token is in lower case.
    pub fn from_lowercase(lowered: &str) -> (res: Option<Self>)
        ensures
            res == spec_capability(lowered@),
    {
        if str_eq(lowered, "pipelining") {
            Some(Self::Pipelining)
        } else {
            None
        }
    }

    /// The capability that `s` names, whatever its case; otherwise a message
    /// that quotes `s`.
    pub fn from_str(s: &str) -> (res: Result<Self, String>)
        ensures
            match res {
                Ok(c) => spec_parse_capability(s@) == Some(c),
                Err(message) => spec_parse_capability(s@) is None && message@
                    == "Unknown capability: "@ + s@,
            },
    {
        let lowered = text_to_lowercase(s);
        match Self::from_lowercase(lowered.as_str()) {
            Some(c) => Ok(c),
            None => Err(String::from_str("Unknown capability: ").concat(s)),
        }
    }

    /// The name of the capability.
    pub fn as_str(&self) -> (res: &'static str)
        ensures
            res@ == spec_capability_name(*self),
    {
        match self {
            Self::Pipelining => "pipelining",
        }
    }

    /// The name of the capability, as an owned string.
    pub fn to_string(&self) -> (res: String)
        ensures
            res@ == spec_capability_name(*self),
    {
        String::from_str(self.as_str())
    }
}

impl std::str::FromStr for FrameCapabilities {
    type Err = String;

    fn from_str(s: &str) -> (res: Result<Self, String>)
        ensures
            match res {
                Ok(c) => spec_parse_capability(s@) == Some(c),
                Err(message) => spec_parse_capability(s@) is None && message@
                    == "Unknown capability: "@ + s@,
            },
    {
        FrameCapabilities::from_str(s)
    }
}

/// The capabilities that the comma-separated list `text` names.
pub fn parse_capabilities(text: &str) -> (caps: Vec<FrameCapabilities>)
    ensures
        caps@ == spec_parse_capabilities(text@),
{
    let chars = text_chars(text);
    let tokens = split_chars(chars.as_slice(), ',');
    let ghost all = tokens@.map_values(|p: Vec<char>| p@);
    let mut caps: Vec<FrameCapabilities> = Vec::new();
    let mut i: usize = 0;
    assert(all.take(0) =~= Seq::<Seq<char>>::empty());
    while i < tokens.len()
        invariant
            0 <= i <= tokens@.len(),
            all == tokens@.map_values(|p: Vec<char>| p@),
            caps@ == spec_capabilities_of(all.take(i as int)),
        decreases tokens@.len() - i,
    {
        let trimmed = trim_chars(tokens[i].as_slice());
        let token = text_from_chars(trimmed);
        proof {
            let next = all.take(i + 1);
            assert(next.drop_last() =~= all.take(i as int));
            assert(next.last() == tokens@[i as int]@);
        }
        match FrameCapabilities::from_str(token.as_str()) {
            Ok(c) => {
                caps.push(c);
            },
            Err(_) => {},
        }
        i = i + 1;
    }
    assert(all.take(i as int) =~= all);
    caps
}

/// The comma-separated list of the names of `caps`.
pub fn capabilities_text(caps: &Vec<FrameCapabilities>) -> (text: String)
    ensures
        text@ == spec_capabilities_text(caps@),
{
    let mut names: Vec<Vec<char>> = Vec::new();
    let mut i: usize = 0;
    while i < caps.len()
        invariant
            0 <= i <= caps@.len(),
            names@.len() == i,
            forall|k: int| 0 <= k < i ==> (#[trigger] names@[k])@ == spec_capability_name(caps@[k]),
        decreases caps@.len() - i,
    {
        names.push(text_chars(caps[i].as_str()));
        i = i + 1;
    }
    let comma: [char; 1] = [','];
    let joined = join_chars(&names, comma.as_slice());
    proof {
        assert(names@.map_values(|p: Vec<char>| p@) =~= caps@.map_values(
            |c: FrameCapabilities| spec_capability_name(c),
        ));
        assert(comma@ =~= seq![',']);
    }
    text_from_chars(joined.as_slice())
}

/// Whether `caps` holds `wanted`.
pub fn has_capability(caps: &Vec<FrameCapabilities>, wanted: FrameCapabilities) -> (res: bool)
    ensures
        res == caps@.contains(wanted),
{
    let mut i: usize = 0;
    while i < caps.len()
        invariant
            0 <= i <= caps@.len(),
            forall|k: int| 0 <= k < i ==> caps@[k] != wanted,
        decreases caps@.len() - i,
    {
        if caps[i] == wanted {
            return true;
        }
        i = i + 1;
    }
    false
}

} // verus!
