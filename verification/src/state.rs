//! The state container that flows through both engines: an arbitrary
//! payload plus a string-keyed structured-metadata bag, with value
//! semantics (cloned, never mutably aliased, across concurrent branches).

use vstd::prelude::*;

use crate::value::StructuredValue;
use crate::value::sv_eq;

verus! {

use vstd::string::StringExecFns;

/// One metadata bag: a list of key/value entries with pairwise-distinct
/// keys. Insertion order carries no meaning; contracts speak through
/// `has_key` and `lookup`.
pub type Entries = Vec<(String, StructuredValue)>;

/// Whether some entry has key `k`.
pub open spec fn has_key(s: Seq<(String, StructuredValue)>, k: Seq<char>) -> bool {
    exists|i: int| 0 <= i < s.len() && s[i].0@ == k
}

/// All keys are pairwise distinct.
pub open spec fn distinct_keys(s: Seq<(String, StructuredValue)>) -> bool {
    forall|i: int, j: int| 0 <= i < j < s.len() ==> s[i].0@ != s[j].0@
}

/// The value stored under key `k` (meaningful when `has_key(s, k)` and
/// the keys are distinct).
pub open spec fn lookup(s: Seq<(String, StructuredValue)>, k: Seq<char>) -> StructuredValue {
    s[choose|i: int| 0 <= i < s.len() && s[i].0@ == k].1
}

/// Under distinct keys, the entry at any index with key `k` holds
/// exactly `lookup(s, k)`.
pub proof fn lemma_lookup_at(s: Seq<(String, StructuredValue)>, i: int)
    requires
        distinct_keys(s),
        0 <= i < s.len(),
    ensures
        lookup(s, s[i].0@) == s[i].1,
{
    let k = s[i].0@;
    let j = choose|j: int| 0 <= j < s.len() && s[j].0@ == k;
    assert(0 <= j < s.len() && s[j].0@ == k);
    if i < j {
        assert(s[i].0@ != s[j].0@);
    } else if j < i {
        assert(s[j].0@ != s[i].0@);
    }
}

/// Finds the index of the entry whose key equals `key`.
pub fn find_entry(entries: &Entries, key: &str) -> (r: Option<usize>)
    ensures
        match r {
            Some(i) => i < entries@.len() && entries@[i as int].0@ == key@,
            None => !has_key(entries@, key@),
        },
{
    let key_s = key.to_owned();
    let mut i: usize = 0;
    while i < entries.len()
        invariant
            i <= entries.len(),
            key_s@ == key@,
            forall|j: int| 0 <= j < i ==> entries@[j].0@ != key@,
        decreases entries.len() - i,
    {
        if entries[i].0 == key_s {
            return Some(i);
        }
        i += 1;
    }
    None
}

/// Inserts or replaces the entry under `key`, keeping keys distinct and
/// leaving every other key's binding unchanged.
pub fn set_entry(entries: &mut Entries, key: String, value: StructuredValue)
    requires
        distinct_keys(old(entries)@),
    ensures
        distinct_keys(final(entries)@),
        has_key(final(entries)@, key@),
        lookup(final(entries)@, key@) == value,
        forall|k: Seq<char>| k != key@ ==> has_key(final(entries)@, k) == has_key(
            old(entries)@,
            k,
        ),
        forall|k: Seq<char>| k != key@ && has_key(old(entries)@, k) ==> lookup(
            final(entries)@,
            k,
        ) == lookup(old(entries)@, k),
{
    let ghost old_s = entries@;
    match find_entry(entries, key.as_str()) {
        Some(i) => {
            entries[i] = (key, value);
            proof {
                let s = entries@;
                assert forall|a: int, b: int| 0 <= a < b < s.len() implies s[a].0@
                    != s[b].0@ by {
                    assert(old_s[a].0@ != old_s[b].0@);
                }
                lemma_lookup_at(s, i as int);
                assert forall|k: Seq<char>| k != key@ implies has_key(s, k) == has_key(
                    old_s,
                    k,
                ) by {
                    if has_key(s, k) {
                        let a = choose|a: int| 0 <= a < s.len() && s[a].0@ == k;
                        assert(old_s[a].0@ == k);
                    }
                    if has_key(old_s, k) {
                        let a = choose|a: int| 0 <= a < old_s.len() && old_s[a].0@ == k;
                        assert(s[a].0@ == k);
                    }
                }
                assert forall|k: Seq<char>| k != key@ && has_key(old_s, k) implies lookup(
                    s,
                    k,
                ) == lookup(old_s, k) by {
                    let a = choose|a: int| 0 <= a < old_s.len() && old_s[a].0@ == k;
                    assert(s[a].0@ == k && s[a].1 == old_s[a].1);
                    lemma_lookup_at(s, a);
                    lemma_lookup_at(old_s, a);
                }
            }
        },
        None => {
            entries.push((key, value));
            proof {
                let s = entries@;
                let n = old_s.len() as int;
                assert(s[n].0@ == key@);
                lemma_lookup_at(s, n);
                assert forall|k: Seq<char>| k != key@ implies has_key(s, k) == has_key(
                    old_s,
                    k,
                ) by {
                    if has_key(s, k) {
                        let a = choose|a: int| 0 <= a < s.len() && s[a].0@ == k;
                        assert(a < n && old_s[a].0@ == k);
                    }
                    if has_key(old_s, k) {
                        let a = choose|a: int| 0 <= a < old_s.len() && old_s[a].0@ == k;
                        assert(s[a].0@ == k);
                    }
                }
                assert forall|k: Seq<char>| k != key@ && has_key(old_s, k) implies lookup(
                    s,
                    k,
                ) == lookup(old_s, k) by {
                    let a = choose|a: int| 0 <= a < old_s.len() && old_s[a].0@ == k;
                    assert(s[a].0@ == k && s[a].1 == old_s[a].1);
                    lemma_lookup_at(s, a);
                    lemma_lookup_at(old_s, a);
                }
            }
        },
    }
}

/// Removes the entry under `key`, returning its value if present.
pub fn remove_entry(entries: &mut Entries, key: &str) -> (r: Option<StructuredValue>)
    requires
        distinct_keys(old(entries)@),
    ensures
        distinct_keys(final(entries)@),
        !has_key(final(entries)@, key@),
        match r {
            Some(v) => has_key(old(entries)@, key@) && v == lookup(old(entries)@, key@),
            None => !has_key(old(entries)@, key@),
        },
        forall|k: Seq<char>| k != key@ ==> has_key(final(entries)@, k) == has_key(
            old(entries)@,
            k,
        ),
        forall|k: Seq<char>| k != key@ && has_key(old(entries)@, k) ==> lookup(
            final(entries)@,
            k,
        ) == lookup(old(entries)@, k),
{
    let ghost old_s = entries@;
    match find_entry(entries, key) {
        Some(i) => {
            let (_, v) = entries.remove(i);
            proof {
                let s = entries@;
                lemma_lookup_at(old_s, i as int);
                assert forall|a: int, b: int| 0 <= a < b < s.len() implies s[a].0@
                    != s[b].0@ by {
                    let a0 = if a < i { a } else { a + 1 };
                    let b0 = if b < i { b } else { b + 1 };
                    assert(old_s[a0].0@ != old_s[b0].0@);
                }
                assert forall|k: Seq<char>| has_key(s, k) implies k != key@ && has_key(
                    old_s,
                    k,
                ) by {
                    let a = choose|a: int| 0 <= a < s.len() && s[a].0@ == k;
                    let a0 = if a < i { a } else { a + 1 };
                    assert(old_s[a0].0@ == k);
                    assert(a0 != i);
                }
                assert forall|k: Seq<char>| k != key@ && has_key(old_s, k) implies has_key(
                    s,
                    k,
                ) && lookup(s, k) == lookup(old_s, k) by {
                    let a0 = choose|a: int| 0 <= a < old_s.len() && old_s[a].0@ == k;
                    assert(a0 != i);
                    let a = if a0 < i { a0 } else { a0 - 1 };
                    assert(s[a].0@ == k && s[a].1 == old_s[a0].1);
                    lemma_lookup_at(s, a);
                    lemma_lookup_at(old_s, a0);
                }
            }
            Some(v)
        },
        None => None,
    }
}

/// Pointwise equivalence of two entry lists: equal length, equal keys,
/// deep-equal values.
pub open spec fn entries_equiv(
    a: Seq<(String, StructuredValue)>,
    b: Seq<(String, StructuredValue)>,
) -> bool {
    &&& a.len() == b.len()
    &&& forall|i: int| 0 <= i < a.len() ==> (#[trigger] a[i]).0@ == b[i].0@ && sv_eq(a[i].1, b[i].1)
}

/// Produces an entry list pointwise equivalent to the given one,
/// preserving key distinctness.
pub fn duplicate_entries(entries: &Entries) -> (r: Entries)
    ensures
        entries_equiv(r@, entries@),
        distinct_keys(entries@) ==> distinct_keys(r@),
{
    let mut out: Entries = Vec::new();
    let mut i: usize = 0;
    while i < entries.len()
        invariant
            i <= entries.len(),
            out@.len() == i,
            forall|j: int| 0 <= j < i ==> (#[trigger] out@[j]).0@ == entries@[j].0@ && sv_eq(
                out@[j].1,
                entries@[j].1,
            ),
        decreases entries.len() - i,
    {
        let k = entries[i].0.clone();
        let v = entries[i].1.duplicate();
        out.push((k, v));
        i += 1;
    }
    out
}

/// Types usable as the payload of a [`State`]. `dup` is expected to
/// produce a copy that the receiver may use independently; both engines
/// call it when fanning a state out to concurrent branches.
pub trait StateValue: Sized {
    /// Produces an independent copy of this value.
    fn dup(&self) -> Self;
}

impl StateValue for bool {
    fn dup(&self) -> (r: bool)
        ensures
            r == *self,
    {
        *self
    }
}

impl StateValue for i32 {
    fn dup(&self) -> (r: i32)
        ensures
            r == *self,
    {
        *self
    }
}

impl StateValue for i64 {
    fn dup(&self) -> (r: i64)
        ensures
            r == *self,
    {
        *self
    }
}

impl StateValue for String {
    fn dup(&self) -> (r: String)
        ensures
            r == *self,
    {
        self.clone()
    }
}

/// The state that flows through a graph: a payload plus a metadata bag.
#[derive(Debug)]
pub struct State<T: StateValue> {
    /// The current data in the state.
    pub data: T,
    /// Metadata associated with the state; keys are pairwise distinct.
    pub metadata: Entries,
}

impl<T: StateValue> State<T> {
    /// The metadata bag, for use in specifications.
    pub open spec fn meta(&self) -> Seq<(String, StructuredValue)> {
        self.metadata@
    }

    /// The metadata bag always has pairwise-distinct keys.
    pub open spec fn wf(&self) -> bool {
        distinct_keys(self.metadata@)
    }

    /// Creates a new state with the given data and no metadata.
    pub fn new(data: T) -> (r: Self)
        ensures
            r.data == data,
            r.meta().len() == 0,
            r.wf(),
    {
        State { data, metadata: Vec::new() }
    }

    /// Adds one metadata entry, replacing any previous binding of `key`.
    pub fn with_metadata(self, key: String, value: StructuredValue) -> (r: Self)
        requires
            self.wf(),
        ensures
            r.wf(),
            r.data == self.data,
            has_key(r.meta(), key@),
            lookup(r.meta(), key@) == value,
            forall|k: Seq<char>| k != key@ ==> has_key(r.meta(), k) == has_key(self.meta(), k),
            forall|k: Seq<char>| k != key@ && has_key(self.meta(), k) ==> lookup(
                r.meta(),
                k,
            ) == lookup(self.meta(), k),
    {
        let mut s = self;
        set_entry(&mut s.metadata, key, value);
        s
    }

    /// Reads the metadata entry under `key`, if present.
    pub fn get_metadata(&self, key: &str) -> (r: Option<&StructuredValue>)
        requires
            self.wf(),
        ensures
            match r {
                Some(v) => has_key(self.meta(), key@) && *v == lookup(self.meta(), key@),
                None => !has_key(self.meta(), key@),
            },
    {
        match find_entry(&self.metadata, key) {
            Some(i) => {
                proof {
                    lemma_lookup_at(self.metadata@, i as int);
                }
                Some(&self.metadata[i].1)
            },
            None => None,
        }
    }

    /// Removes the metadata entry under `key`, returning it if present.
    pub fn remove_metadata(&mut self, key: &str) -> (r: Option<StructuredValue>)
        requires
            old(self).wf(),
        ensures
            final(self).wf(),
            final(self).data == old(self).data,
            !has_key(final(self).meta(), key@),
            match r {
                Some(v) => has_key(old(self).meta(), key@) && v == lookup(
                    old(self).meta(),
                    key@,
                ),
                None => !has_key(old(self).meta(), key@),
            },
            forall|k: Seq<char>| k != key@ ==> has_key(final(self).meta(), k) == has_key(
                old(self).meta(),
                k,
            ),
            forall|k: Seq<char>| k != key@ && has_key(old(self).meta(), k) ==> lookup(
                final(self).meta(),
                k,
            ) == lookup(old(self).meta(), k),
    {
        remove_entry(&mut self.metadata, key)
    }

    /// Whether the metadata bag contains `key`.
    pub fn has_metadata(&self, key: &str) -> (r: bool)
        ensures
            r == has_key(self.meta(), key@),
    {
        match find_entry(&self.metadata, key) {
            Some(_) => true,
            None => false,
        }
    }

    /// Produces a copy of this state: the payload copied through
    /// [`StateValue::dup`], the metadata bag duplicated entry by entry.
    /// Concurrent branches each receive one such copy.
    pub fn duplicate(&self) -> (r: Self)
        ensures
            entries_equiv(r.meta(), self.meta()),
            self.wf() ==> r.wf(),
    {
        let r = State { data: self.data.dup(), metadata: duplicate_entries(&self.metadata) };
        r
    }
}

/// An operation that turns one state into another.
pub trait StateUpdate<S: StateValue> {
    /// Applies the update to the state.
    fn apply(&self, state: State<S>) -> (r: Result<State<S>, crate::error::Error>);
}

/// A simple state payload holding a map of string keys to structured
/// values.
#[derive(Debug)]
pub struct MapState {
    /// The stored entries; keys are pairwise distinct.
    pub values: Entries,
}

impl MapState {
    /// The stored entries, for use in specifications.
    pub open spec fn entries(&self) -> Seq<(String, StructuredValue)> {
        self.values@
    }

    /// The stored entries always have pairwise-distinct keys.
    pub open spec fn wf(&self) -> bool {
        distinct_keys(self.values@)
    }

    /// Creates an empty map state.
    pub fn new() -> (r: Self)
        ensures
            r.entries().len() == 0,
            r.wf(),
    {
        MapState { values: Vec::new() }
    }

    /// Reads the value under `key`, if present.
    pub fn get(&self, key: &str) -> (r: Option<&StructuredValue>)
        requires
            self.wf(),
        ensures
            match r {
                Some(v) => has_key(self.entries(), key@) && *v == lookup(self.entries(), key@),
                None => !has_key(self.entries(), key@),
            },
    {
        match find_entry(&self.values, key) {
            Some(i) => {
                proof {
                    lemma_lookup_at(self.values@, i as int);
                }
                Some(&self.values[i].1)
            },
            None => None,
        }
    }

    /// Stores `value` under `key`, replacing any previous binding.
    pub fn set(&mut self, key: String, value: StructuredValue) -> (r: Result<
        (),
        crate::error::Error,
    >)
        requires
            old(self).wf(),
        ensures
            r is Ok,
            final(self).wf(),
            has_key(final(self).entries(), key@),
            lookup(final(self).entries(), key@) == value,
            forall|k: Seq<char>| k != key@ ==> has_key(final(self).entries(), k) == has_key(
                old(self).entries(),
                k,
            ),
            forall|k: Seq<char>| k != key@ && has_key(old(self).entries(), k) ==> lookup(
                final(self).entries(),
                k,
            ) == lookup(old(self).entries(), k),
    {
        set_entry(&mut self.values, key, value);
        Ok(())
    }

    /// Removes the value under `key`, returning it if present.
    pub fn remove(&mut self, key: &str) -> (r: Option<StructuredValue>)
        requires
            old(self).wf(),
        ensures
            final(self).wf(),
            !has_key(final(self).entries(), key@),
            match r {
                Some(v) => has_key(old(self).entries(), key@) && v == lookup(
                    old(self).entries(),
                    key@,
                ),
                None => !has_key(old(self).entries(), key@),
            },
            forall|k: Seq<char>| k != key@ ==> has_key(final(self).entries(), k) == has_key(
                old(self).entries(),
                k,
            ),
            forall|k: Seq<char>| k != key@ && has_key(old(self).entries(), k) ==> lookup(
                final(self).entries(),
                k,
            ) == lookup(old(self).entries(), k),
    {
        remove_entry(&mut self.values, key)
    }

    /// Whether the map contains `key`.
    pub fn contains_key(&self, key: &str) -> (r: bool)
        ensures
            r == has_key(self.entries(), key@),
    {
        match find_entry(&self.values, key) {
            Some(_) => true,
            None => false,
        }
    }

    /// All keys, in storage order.
    pub fn keys(&self) -> (r: Vec<String>)
        ensures
            r@.len() == self.entries().len(),
            forall|i: int| 0 <= i < r@.len() ==> r@[i]@ == self.entries()[i].0@,
    {
        let mut out: Vec<String> = Vec::new();
        let mut i: usize = 0;
        while i < self.values.len()
            invariant
                i <= self.values.len(),
                out@.len() == i,
                forall|j: int| 0 <= j < i ==> out@[j]@ == self.values@[j].0@,
            decreases self.values.len() - i,
        {
            out.push(self.values[i].0.clone());
            i += 1;
        }
        out
    }

    /// All values, in storage order.
    pub fn values(&self) -> (r: Vec<StructuredValue>)
        ensures
            r@.len() == self.entries().len(),
            forall|i: int| 0 <= i < r@.len() ==> sv_eq(#[trigger] r@[i], self.entries()[i].1),
    {
        let mut out: Vec<StructuredValue> = Vec::new();
        let mut i: usize = 0;
        while i < self.values.len()
            invariant
                i <= self.values.len(),
                out@.len() == i,
                forall|j: int| 0 <= j < i ==> sv_eq(#[trigger] out@[j], self.values@[j].1),
            decreases self.values.len() - i,
        {
            out.push(self.values[i].1.duplicate());
            i += 1;
        }
        out
    }

    /// The number of key/value pairs.
    pub fn len(&self) -> (r: usize)
        ensures
            r == self.entries().len(),
    {
        self.values.len()
    }

    /// Whether the map holds no entries.
    pub fn is_empty(&self) -> (r: bool)
        ensures
            r == (self.entries().len() == 0),
    {
        self.values.is_empty()
    }
}

impl StateValue for MapState {
    fn dup(&self) -> (r: MapState)
        ensures
            entries_equiv(r.entries(), self.entries()),
            self.wf() ==> r.wf(),
    {
        MapState { values: duplicate_entries(&self.values) }
    }
}

} // verus!
