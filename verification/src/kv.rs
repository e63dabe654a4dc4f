//! Key/value lists: string keys, typed values, no key twice.
//!
//! The list keeps its entries in insertion order, which is also the order in
//! which they travel on the wire; lookups go by key.

use vstd::prelude::*;
use crate::text::str_eq;
use crate::types::{TypedData, TypedDataView};

verus! {

/// Mathematical counterpart of a key/value list: the entries in order.
pub type KvView = Seq<(Seq<char>, TypedDataView)>;

/// Some entry of `l` has the key `key`.
pub open spec fn has_key(l: KvView, key: Seq<char>) -> bool {
    exists|i: int| 0 <= i < l.len() && (#[trigger] l[i]).0 == key
}

/// No two entries of `l` share a key.
pub open spec fn distinct_keys(l: KvView) -> bool {
    forall|i: int, j: int| 0 <= i < j < l.len() ==> (#[trigger] l[i]).0 != (#[trigger] l[j]).0
}

/// The position of the entry with key `key`, where there is one.
pub open spec fn spec_index_of(l: KvView, key: Seq<char>) -> int {
    choose|i: int| 0 <= i < l.len() && (#[trigger] l[i]).0 == key
}

/// The value stored under `key`.
pub open spec fn spec_get(l: KvView, key: Seq<char>) -> Option<TypedDataView> {
    if has_key(l, key) {
        Some(l[spec_index_of(l, key)].1)
    } else {
        None
    }
}

/// The list after storing `value` under `key`: an existing entry keeps its
/// place and takes the new value, a new one goes to the end.
pub open spec fn spec_insert(l: KvView, key: Seq<char>, value: TypedDataView) -> KvView {
    if has_key(l, key) {
        l.update(spec_index_of(l, key), (key, value))
    } else {
        l.push((key, value))
    }
}

/// In a list without repeated keys, the entry at `i` is the one found under
/// its key.
pub proof fn lemma_get_at(l: KvView, i: int)
    requires
        distinct_keys(l),
        0 <= i < l.len(),
    ensures
        has_key(l, l[i].0),
        spec_index_of(l, l[i].0) == i,
        spec_get(l, l[i].0) == Some(l[i].1),
{
    let key = l[i].0;
    assert(has_key(l, key));
    let j = spec_index_of(l, key);
    if j < i {
        assert(l[j].0 != l[i].0);
    } else if i < j {
        assert(l[i].0 != l[j].0);
    }
}

/// Storing a value keeps the keys distinct, and the value is then found under
/// its key while every other key keeps what it had.
pub proof fn lemma_insert(l: KvView, key: Seq<char>, value: TypedDataView)
    requires
        distinct_keys(l),
    ensures
        distinct_keys(spec_insert(l, key, value)),
        spec_get(spec_insert(l, key, value), key) == Some(value),
        forall|other: Seq<char>|
            other != key ==> spec_get(spec_insert(l, key, value), other) == spec_get(l, other),
{
    let r = spec_insert(l, key, value);
    if has_key(l, key) {
        let at = spec_index_of(l, key);
        assert forall|i: int, j: int| 0 <= i < j < r.len() implies (#[trigger] r[i]).0 != (
        #[trigger] r[j]).0 by {
            assert(l[i].0 != l[j].0);
        }
        assert(r[at].0 == key);
        lemma_get_at(r, at);
        assert forall|other: Seq<char>| other != key implies spec_get(r, other) == spec_get(
            l,
            other,
        ) by {
            if has_key(l, other) {
                let k = spec_index_of(l, other);
                assert(r[k] == l[k]);
                lemma_get_at(l, k);
                lemma_get_at(r, k);
            } else if has_key(r, other) {
                let k = spec_index_of(r, other);
                assert(l[k].0 == other);
            }
        }
    } else {
        assert forall|i: int, j: int| 0 <= i < j < r.len() implies (#[trigger] r[i]).0 != (
        #[trigger] r[j]).0 by {
            if j == l.len() {
                assert(l[i].0 != key);
            } else {
                assert(l[i].0 != l[j].0);
            }
        }
        assert(r[l.len() as int].0 == key);
        lemma_get_at(r, l.len() as int);
        assert forall|other: Seq<char>| other != key implies spec_get(r, other) == spec_get(
            l,
            other,
        ) by {
            if has_key(l, other) {
                let k = spec_index_of(l, other);
                assert(r[k] == l[k]);
                lemma_get_at(l, k);
                lemma_get_at(r, k);
            } else if has_key(r, other) {
                let k = spec_index_of(r, other);
                assert(l[k].0 == other);
            }
        }
    }
}

/// Storing a value under a key that the list does not have adds an entry at
/// the end.
pub proof fn lemma_insert_new(l: KvView, key: Seq<char>, value: TypedDataView)
    requires
        forall|i: int| 0 <= i < l.len() ==> (#[trigger] l[i]).0 != key,
    ensures
        !has_key(l, key),
        spec_insert(l, key, value) == l.push((key, value)),
{
}

/// The view of one stored entry.
pub open spec fn pair_view(p: (String, TypedData)) -> (Seq<char>, TypedDataView) {
    (p.0@, p.1@)
}

/// The view of a vector of entries.
pub open spec fn entries_view(v: Seq<(String, TypedData)>) -> KvView {
    v.map_values(|p: (String, TypedData)| pair_view(p))
}

/// The two lists hold the same values under the same keys, in whatever
/// order.
pub open spec fn same_entries(a: KvView, b: KvView) -> bool {
    forall|key: Seq<char>| spec_get(a, key) == spec_get(b, key)
}

/// Every entry of `a` is found in `b`, under its key and with its value.
pub open spec fn entries_within(a: KvView, b: KvView) -> bool {
    forall|i: int| 0 <= i < a.len() ==> spec_get(b, (#[trigger] a[i]).0) == Some(a[i].1)
}

/// Two lists without repeated keys hold the same entries exactly when each
/// holds the entries of the other.
pub proof fn lemma_same_entries(a: KvView, b: KvView)
    requires
        distinct_keys(a),
        distinct_keys(b),
    ensures
        same_entries(a, b) <==> (entries_within(a, b) && entries_within(b, a)),
{
    if same_entries(a, b) {
        assert forall|i: int| 0 <= i < a.len() implies spec_get(b, (#[trigger] a[i]).0) == Some(
            a[i].1,
        ) by {
            lemma_get_at(a, i);
        }
        assert forall|i: int| 0 <= i < b.len() implies spec_get(a, (#[trigger] b[i]).0) == Some(
            b[i].1,
        ) by {
            lemma_get_at(b, i);
        }
    }
    if entries_within(a, b) && entries_within(b, a) {
        assert forall|key: Seq<char>| spec_get(a, key) == spec_get(b, key) by {
            if has_key(a, key) {
                let i = spec_index_of(a, key);
                lemma_get_at(a, i);
            } else if has_key(b, key) {
                let j = spec_index_of(b, key);
                lemma_get_at(b, j);
                assert(spec_get(a, b[j].0) == Some(b[j].1));
            }
        }
    }
}

/// A list of key/value pairs in which no key occurs twice.
///
/// Lists are equal when they hold the same values under the same keys; the
/// order of the entries does not count.
#[derive(Debug)]
pub struct KvList {
    pub(crate) entries: Vec<(String, TypedData)>,
}

impl View for KvList {
    type V = KvView;

    closed spec fn view(&self) -> KvView {
        entries_view(self.entries@)
    }
}

impl KvList {
    /// No key occurs twice.
    #[verifier::type_invariant]
    pub closed spec fn inv(&self) -> bool {
        distinct_keys(entries_view(self.entries@))
    }

    /// Makes the invariant of the list known to the caller.
    pub fn keys_are_distinct(&self)
        ensures
            distinct_keys(self@),
    {
        proof {
            use_type_invariant(self);
        }
    }

    /// The empty list.
    pub fn new() -> (res: Self)
        ensures
            res@ == Seq::<(Seq<char>, TypedDataView)>::empty(),
    {
        let res = KvList { entries: Vec::new() };
        assert(res@ =~= Seq::<(Seq<char>, TypedDataView)>::empty());
        res
    }

    /// The number of entries.
    pub fn len(&self) -> (n: usize)
        ensures
            n == self@.len(),
    {
        self.entries.len()
    }

    /// Whether the list has no entries.
    pub fn is_empty(&self) -> (b: bool)
        ensures
            b == (self@.len() == 0),
    {
        self.entries.len() == 0
    }

    /// The entries in order.
    pub fn entries(&self) -> (res: &Vec<(String, TypedData)>)
        ensures
            entries_view(res@) == self@,
            distinct_keys(self@),
    {
        proof {
            use_type_invariant(self);
        }
        &self.entries
    }

    /// The position of the entry with key `key`.
    fn position(&self, key: &str) -> (res: Option<usize>)
        ensures
            distinct_keys(self@),
            match res {
                Some(i) => i < self@.len() && self@[i as int].0 == key@ && has_key(self@, key@)
                    && spec_index_of(self@, key@) == i,
                None => !has_key(self@, key@),
            },
    {
        proof {
            use_type_invariant(self);
        }
        let mut i: usize = 0;
        while i < self.entries.len()
            invariant
                0 <= i <= self.entries@.len(),
                self@ == entries_view(self.entries@),
                distinct_keys(self@),
                forall|k: int| 0 <= k < i ==> (#[trigger] self@[k]).0 != key@,
            decreases self.entries@.len() - i,
        {
            if str_eq(self.entries[i].0.as_str(), key) {
                proof {
                    lemma_get_at(self@, i as int);
                }
                return Some(i);
            }
            i = i + 1;
        }
        None
    }

    /// Whether some entry has the key `key`.
    pub fn contains_key(&self, key: &str) -> (b: bool)
        ensures
            b == has_key(self@, key@),
    {
        self.position(key).is_some()
    }

    /// The value stored under `key`.
    pub fn get(&self, key: &str) -> (res: Option<&TypedData>)
        ensures
            match res {
                Some(v) => spec_get(self@, key@) == Some(v@),
                None => spec_get(self@, key@) is None,
            },
    {
        match self.position(key) {
            Some(i) => Some(&self.entries[i].1),
            None => None,
        }
    }

    /// Stores `value` under `key`.  An entry that already has the key keeps
    /// its place and gives up its old value, which is returned.
    pub fn insert(&mut self, key: String, value: TypedData) -> (res: Option<TypedData>)
        ensures
            final(self)@ == spec_insert(old(self)@, key@, value@),
            match res {
                Some(prev) => spec_get(old(self)@, key@) == Some(prev@),
                None => spec_get(old(self)@, key@) is None,
            },
    {
        let ghost before = self@;
        let found = self.position(key.as_str());
        proof {
            lemma_insert(before, key@, value@);
        }
        let mut current = KvList::new();
        std::mem::swap(self, &mut current);
        let mut entries = current.entries;
        match found {
            Some(i) => {
                let mut slot = (key, value);
                std::mem::swap(&mut entries[i], &mut slot);
                assert(entries_view(entries@) =~= spec_insert(before, key@, value@));
                *self = KvList { entries };
                Some(slot.1)
            },
            None => {
                entries.push((key, value));
                assert(entries_view(entries@) =~= spec_insert(before, key@, value@));
                *self = KvList { entries };
                None
            },
        }
    }
}

impl KvList {
    /// Whether every entry of this list is in `other`, with the same value.
    pub fn is_within(&self, other: &KvList) -> (res: bool)
        ensures
            res == entries_within(self@, other@),
    {
        let mut i: usize = 0;
        while i < self.entries.len()
            invariant
                0 <= i <= self.entries@.len(),
                self@ == entries_view(self.entries@),
                forall|k: int|
                    0 <= k < i ==> spec_get(other@, (#[trigger] self@[k]).0) == Some(self@[k].1),
            decreases self.entries@.len() - i,
        {
            let found = match other.get(self.entries[i].0.as_str()) {
                Some(value) => value.same_as(&self.entries[i].1),
                None => false,
            };
            if !found {
                assert(spec_get(other@, self@[i as int].0) != Some(self@[i as int].1));
                return false;
            }
            i = i + 1;
        }
        true
    }
}

impl PartialEq for KvList {
    fn eq(&self, other: &KvList) -> (res: bool) {
        proof {
            use_type_invariant(self);
            use_type_invariant(other);
            lemma_same_entries(self@, other@);
        }
        self.is_within(other) && other.is_within(self)
    }
}

impl vstd::std_specs::cmp::PartialEqSpecImpl for KvList {
    open spec fn obeys_eq_spec() -> bool {
        true
    }

    open spec fn eq_spec(&self, other: &KvList) -> bool {
        same_entries(self@, other@)
    }
}

impl Eq for KvList {

}

impl Clone for KvList {
    fn clone(&self) -> (res: Self)
        ensures
            res@ == self@,
    {
        proof {
            use_type_invariant(self);
        }
        let mut entries: Vec<(String, TypedData)> = Vec::new();
        let mut i: usize = 0;
        while i < self.entries.len()
            invariant
                0 <= i <= self.entries@.len(),
                entries@.len() == i,
                forall|k: int| 0 <= k < i ==> pair_view(#[trigger] entries@[k]) == pair_view(
                    self.entries@[k],
                ),
            decreases self.entries@.len() - i,
        {
            let key = self.entries[i].0.clone();
            let value = self.entries[i].1.clone();
            entries.push((key, value));
            i = i + 1;
        }
        assert(entries_view(entries@) =~= entries_view(self.entries@));
        KvList { entries }
    }
}

} // verus!
