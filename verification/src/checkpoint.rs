//! Checkpoints: externally persistable snapshots of a state plus
//! descriptive metadata. The file-backed store's reading and writing
//! is an outside concern; the library holds its configuration and the
//! path scheme.

use vstd::prelude::*;

use crate::error::Error;
use crate::error::compose_msg;
use crate::state::Entries;
use crate::state::State;
use crate::state::StateValue;
use crate::state::distinct_keys;
use crate::state::has_key;
use crate::state::lookup;
use crate::state::set_entry;
use crate::value::StructuredValue;

verus! {

use vstd::string::StringExecFns;

use crate::schema::fresh_uuid_string;

/// Relies on std's `SystemTime::now`, `duration_since` and
/// `Duration::as_secs`: the number of whole seconds since the Unix
/// epoch, or 0 when the clock reads earlier than the epoch. Nothing is
/// promised of the result: it depends on the clock.
#[verifier::external_body]
fn now_unix_secs() -> (r: u64)
{
    std::time::SystemTime::now()
        .duration_since(std::time::UNIX_EPOCH)
        .map(|d| d.as_secs())
        .unwrap_or(0)
}

/// Metadata about a checkpoint.
#[derive(Debug)]
pub struct CheckpointMetadata {
    /// Unique identifier for the checkpoint.
    pub id: String,
    /// When the checkpoint was created, in seconds since the epoch.
    pub created_at: u64,
    /// Name of the node that produced this state.
    pub node_name: String,
    /// Additional metadata; keys pairwise distinct.
    pub metadata: Entries,
}

/// A checkpoint: a state captured at a point in graph execution, plus
/// metadata about it.
#[derive(Debug)]
pub struct Checkpoint<S: StateValue> {
    /// Metadata about the checkpoint.
    pub metadata: CheckpointMetadata,
    /// The state at this checkpoint.
    pub state: State<S>,
}

impl<S: StateValue> Checkpoint<S> {
    /// The annotation bag has pairwise-distinct keys.
    pub open spec fn wf(&self) -> bool {
        distinct_keys(self.metadata.metadata@)
    }

    /// Creates a checkpoint of `state` with a fresh identifier, the
    /// current time, and no annotations.
    pub fn new(node_name: String, state: State<S>) -> (r: Self)
        ensures
            r.metadata.node_name == node_name,
            r.metadata.metadata@.len() == 0,
            r.metadata.id@.len() == 36,
            r.state == state,
            r.wf(),
    {
        Checkpoint {
            metadata: CheckpointMetadata {
                id: fresh_uuid_string(),
                created_at: now_unix_secs(),
                node_name,
                metadata: Vec::new(),
            },
            state,
        }
    }

    /// Adds one annotation, replacing any previous binding of `key`.
    pub fn with_metadata(self, key: String, value: StructuredValue) -> (r: Result<
        Self,
        crate::error::Error,
    >)
        requires
            self.wf(),
        ensures
            r is Ok,
            r matches Ok(c) ==> {
                &&& c.wf()
                &&& c.state == self.state
                &&& c.metadata.id == self.metadata.id
                &&& c.metadata.created_at == self.metadata.created_at
                &&& c.metadata.node_name == self.metadata.node_name
                &&& has_key(c.metadata.metadata@, key@)
                &&& lookup(c.metadata.metadata@, key@) == value
                &&& forall|k: Seq<char>|
                    k != key@ ==> has_key(c.metadata.metadata@, k) == has_key(
                        self.metadata.metadata@,
                        k,
                    )
            },
    {
        let mut c = self;
        set_entry(&mut c.metadata.metadata, key, value);
        Ok(c)
    }
}

/// Configuration of a file-backed checkpoint store: one JSON file per
/// checkpoint under a directory, plus one metadata index file. The
/// reading and writing themselves happen outside the library.
#[derive(Debug)]
pub struct FileCheckpointStore<S: StateValue> {
    /// The directory the store writes under.
    pub directory: String,
    /// Marks the state type the store is for.
    pub phantom: core::marker::PhantomData<S>,
}

impl<S: StateValue> FileCheckpointStore<S> {
    /// Creates a store configuration over `directory`.
    pub fn new(directory: String) -> (r: Self)
        ensures
            r.directory == directory,
    {
        FileCheckpointStore { directory, phantom: core::marker::PhantomData }
    }

    /// The file path holding the checkpoint with identifier `id`.
    pub fn get_file_path(&self, id: &str) -> (r: String)
        ensures
            r@ == self.directory@ + "/"@ + id@ + ".json"@,
    {
        let mut s = self.directory.clone();
        s.append("/");
        s.append(id);
        s.append(".json");
        s
    }

    /// The file path holding the store's metadata index.
    pub fn get_metadata_file_path(&self) -> (r: String)
        ensures
            r@ == self.directory@ + "/metadata.json"@,
    {
        let mut s = self.directory.clone();
        s.append("/metadata.json");
        s
    }
}

} // verus!

verus! {

use crate::state::duplicate_entries;
use crate::state::entries_equiv;

impl CheckpointMetadata {
    /// Produces metadata equal to this one, entry for entry.
    pub fn duplicate(&self) -> (r: Self)
        ensures
            r.id@ == self.id@,
            r.created_at == self.created_at,
            r.node_name@ == self.node_name@,
            entries_equiv(r.metadata@, self.metadata@),
            distinct_keys(self.metadata@) ==> distinct_keys(r.metadata@),
    {
        CheckpointMetadata {
            id: self.id.clone(),
            created_at: self.created_at,
            node_name: self.node_name.clone(),
            metadata: duplicate_entries(&self.metadata),
        }
    }
}

/// Whether some stored checkpoint carries identifier `id`.
pub open spec fn ck_has<S: StateValue>(s: Seq<(String, Checkpoint<S>)>, id: Seq<char>) -> bool {
    exists|i: int| 0 <= i < s.len() && (#[trigger] s[i]).0@ == id
}

/// The checkpoint stored under `id` (meaningful when `ck_has` and the
/// identifiers are distinct).
pub open spec fn ck_lookup<S: StateValue>(
    s: Seq<(String, Checkpoint<S>)>,
    id: Seq<char>,
) -> Checkpoint<S> {
    s[choose|i: int| 0 <= i < s.len() && (#[trigger] s[i]).0@ == id].1
}

/// Under distinct identifiers, the entry at any index `i` with
/// identifier `id` holds exactly `ck_lookup(s, id)`.
pub proof fn lemma_ck_lookup_at<S: StateValue>(s: Seq<(String, Checkpoint<S>)>, i: int)
    requires
        forall|a: int, b: int| 0 <= a < b < s.len() ==> (#[trigger] s[a]).0@ != (#[trigger] s[b]).0@,
        0 <= i < s.len(),
    ensures
        ck_lookup(s, s[i].0@) == s[i].1,
{
    let id = s[i].0@;
    let j = choose|j: int| 0 <= j < s.len() && (#[trigger] s[j]).0@ == id;
    assert(0 <= j < s.len() && s[j].0@ == id);
    if i < j {
        assert(s[i].0@ != s[j].0@);
    } else if j < i {
        assert(s[j].0@ != s[i].0@);
    }
}

/// An in-memory checkpoint store: checkpoints keyed by identifier.
/// Callers hand it around by mutable reference; it carries no lock of
/// its own.
pub struct MemoryCheckpointStore<S: StateValue> {
    /// The stored checkpoints; identifiers pairwise distinct.
    pub checkpoints: Vec<(String, Checkpoint<S>)>,
}

impl<S: StateValue> MemoryCheckpointStore<S> {
    /// The stored identifiers are pairwise distinct.
    pub open spec fn wf(&self) -> bool {
        forall|a: int, b: int|
            0 <= a < b < self.checkpoints@.len() ==> (#[trigger] self.checkpoints@[a]).0@ != (
            #[trigger] self.checkpoints@[b]).0@
    }

    /// Creates an empty store.
    pub fn new() -> (r: Self)
        ensures
            r.wf(),
            r.checkpoints@.len() == 0,
    {
        MemoryCheckpointStore { checkpoints: Vec::new() }
    }

    /// Finds the index of the checkpoint with identifier `id`.
    fn find_index(&self, id: &str) -> (r: Option<usize>)
        ensures
            match r {
                Some(i) => i < self.checkpoints@.len() && self.checkpoints@[i as int].0@ == id@,
                None => !ck_has(self.checkpoints@, id@),
            },
    {
        let mut i: usize = 0;
        while i < self.checkpoints.len()
            invariant
                i <= self.checkpoints@.len(),
                forall|j: int| 0 <= j < i ==> (#[trigger] self.checkpoints@[j]).0@ != id@,
            decreases self.checkpoints@.len() - i,
        {
            if crate::text::str_eq(self.checkpoints[i].0.as_str(), id) {
                return Some(i);
            }
            i += 1;
        }
        None
    }

    /// Stores a checkpoint under its own identifier, replacing any
    /// previous checkpoint stored under it, and returns the
    /// identifier.
    pub fn save(&mut self, checkpoint: Checkpoint<S>) -> (r: Result<String, Error>)
        requires
            old(self).wf(),
        ensures
            final(self).wf(),
            r matches Ok(id) ==> id@ == checkpoint.metadata.id@,
            r is Ok,
            ck_has(final(self).checkpoints@, checkpoint.metadata.id@),
            ck_lookup(final(self).checkpoints@, checkpoint.metadata.id@) == checkpoint,
            forall|k: Seq<char>|
                k != checkpoint.metadata.id@ ==> ck_has(final(self).checkpoints@, k) == ck_has(
                    old(self).checkpoints@,
                    k,
                ),
            forall|k: Seq<char>|
                k != checkpoint.metadata.id@ && ck_has(old(self).checkpoints@, k) ==> ck_lookup(
                    final(self).checkpoints@,
                    k,
                ) == ck_lookup(old(self).checkpoints@, k),
    {
        let id = checkpoint.metadata.id.clone();
        let ghost old_s = self.checkpoints@;
        let ghost ckid = checkpoint.metadata.id@;
        match self.find_index(id.as_str()) {
            Some(i) => {
                self.checkpoints[i] = (id.clone(), checkpoint);
                proof {
                    let s = self.checkpoints@;
                    assert forall|a: int, b: int|
                        0 <= a < b < s.len() implies (#[trigger] s[a]).0@ != (
                    #[trigger] s[b]).0@ by {
                        assert(old_s[a].0@ != old_s[b].0@);
                    }
                    lemma_ck_lookup_at(s, i as int);
                    assert forall|k: Seq<char>| k != ckid implies ck_has(s, k) == ck_has(
                        old_s,
                        k,
                    ) by {
                        if ck_has(s, k) {
                            let a = choose|a: int| 0 <= a < s.len() && (#[trigger] s[a]).0@ == k;
                            assert(old_s[a].0@ == k);
                        }
                        if ck_has(old_s, k) {
                            let a = choose|a: int|
                                0 <= a < old_s.len() && (#[trigger] old_s[a]).0@ == k;
                            assert(s[a].0@ == k);
                        }
                    }
                    assert forall|k: Seq<char>| k != ckid && ck_has(old_s, k) implies ck_lookup(
                        s,
                        k,
                    ) == ck_lookup(old_s, k) by {
                        let a = choose|a: int|
                            0 <= a < old_s.len() && (#[trigger] old_s[a]).0@ == k;
                        assert(s[a].0@ == k && s[a].1 == old_s[a].1);
                        lemma_ck_lookup_at(s, a);
                        lemma_ck_lookup_at(old_s, a);
                    }
                }
            },
            None => {
                self.checkpoints.push((id.clone(), checkpoint));
                proof {
                    let s = self.checkpoints@;
                    let n = old_s.len() as int;
                    assert(s[n].0@ == ckid);
                    lemma_ck_lookup_at(s, n);
                    assert forall|a: int, b: int|
                        0 <= a < b < s.len() implies (#[trigger] s[a]).0@ != (
                    #[trigger] s[b]).0@ by {
                        if b < n {
                            assert(old_s[a].0@ != old_s[b].0@);
                        } else {
                            assert(s[a] == old_s[a]);
                            assert(old_s[a].0@ != ckid);
                        }
                    }
                    assert forall|k: Seq<char>| k != ckid implies ck_has(s, k) == ck_has(
                        old_s,
                        k,
                    ) by {
                        if ck_has(s, k) {
                            let a = choose|a: int| 0 <= a < s.len() && (#[trigger] s[a]).0@ == k;
                            assert(a < n && old_s[a].0@ == k);
                        }
                        if ck_has(old_s, k) {
                            let a = choose|a: int|
                                0 <= a < old_s.len() && (#[trigger] old_s[a]).0@ == k;
                            assert(s[a].0@ == k);
                        }
                    }
                    assert forall|k: Seq<char>| k != ckid && ck_has(old_s, k) implies ck_lookup(
                        s,
                        k,
                    ) == ck_lookup(old_s, k) by {
                        let a = choose|a: int|
                            0 <= a < old_s.len() && (#[trigger] old_s[a]).0@ == k;
                        assert(s[a].0@ == k && s[a].1 == old_s[a].1);
                        lemma_ck_lookup_at(s, a);
                        lemma_ck_lookup_at(old_s, a);
                    }
                }
            },
        }
        Ok(id)
    }

    /// Reads the checkpoint stored under `id`. Fails with a
    /// `Checkpoint` error exactly when no checkpoint carries `id`.
    pub fn load(&self, id: &str) -> (r: Result<&Checkpoint<S>, Error>)
        requires
            self.wf(),
        ensures
            (r is Ok) <==> ck_has(self.checkpoints@, id@),
            r matches Ok(c) ==> *c == ck_lookup(self.checkpoints@, id@),
            r matches Err(e) ==> e is Checkpoint,
    {
        match self.find_index(id) {
            Some(i) => {
                proof {
                    lemma_ck_lookup_at(self.checkpoints@, i as int);
                }
                Ok(&self.checkpoints[i].1)
            },
            None => Err(Error::Checkpoint(compose_msg("Checkpoint not found: ", id))),
        }
    }

    /// Lists the metadata of every stored checkpoint, in storage
    /// order.
    pub fn list(&self) -> (r: Vec<CheckpointMetadata>)
        ensures
            r@.len() == self.checkpoints@.len(),
            forall|i: int|
                0 <= i < r@.len() ==> (#[trigger] r@[i]).id@ == self.checkpoints@[i].1.metadata.id@
                    && r@[i].node_name@ == self.checkpoints@[i].1.metadata.node_name@
                    && r@[i].created_at == self.checkpoints@[i].1.metadata.created_at,
    {
        let mut out: Vec<CheckpointMetadata> = Vec::new();
        let mut i: usize = 0;
        while i < self.checkpoints.len()
            invariant
                i <= self.checkpoints@.len(),
                out@.len() == i,
                forall|j: int|
                    0 <= j < i ==> (#[trigger] out@[j]).id@ == self.checkpoints@[j].1.metadata.id@
                        && out@[j].node_name@ == self.checkpoints@[j].1.metadata.node_name@
                        && out@[j].created_at == self.checkpoints@[j].1.metadata.created_at,
            decreases self.checkpoints@.len() - i,
        {
            out.push(self.checkpoints[i].1.metadata.duplicate());
            i += 1;
        }
        out
    }

    /// Deletes the checkpoint stored under `id`. Fails with a
    /// `Checkpoint` error exactly when no checkpoint carries `id`.
    pub fn delete(&mut self, id: &str) -> (r: Result<(), Error>)
        requires
            old(self).wf(),
        ensures
            final(self).wf(),
            (r is Ok) <==> ck_has(old(self).checkpoints@, id@),
            r matches Err(e) ==> e is Checkpoint,
            !ck_has(final(self).checkpoints@, id@),
            forall|k: Seq<char>|
                k != id@ ==> ck_has(final(self).checkpoints@, k) == ck_has(
                    old(self).checkpoints@,
                    k,
                ),
    {
        let ghost old_s = self.checkpoints@;
        match self.find_index(id) {
            Some(i) => {
                let _ = self.checkpoints.remove(i);
                proof {
                    let s = self.checkpoints@;
                    assert forall|a: int, b: int|
                        0 <= a < b < s.len() implies (#[trigger] s[a]).0@ != (
                    #[trigger] s[b]).0@ by {
                        let a0 = if a < i { a } else { a + 1 };
                        let b0 = if b < i { b } else { b + 1 };
                        assert(old_s[a0].0@ != old_s[b0].0@);
                    }
                    assert forall|k: Seq<char>| ck_has(s, k) implies k != id@ && ck_has(
                        old_s,
                        k,
                    ) by {
                        let a = choose|a: int| 0 <= a < s.len() && (#[trigger] s[a]).0@ == k;
                        let a0 = if a < i { a } else { a + 1 };
                        assert(old_s[a0].0@ == k);
                        assert(a0 != i);
                    }
                    assert forall|k: Seq<char>| k != id@ && ck_has(old_s, k) implies ck_has(
                        s,
                        k,
                    ) by {
                        let a0 = choose|a: int|
                            0 <= a < old_s.len() && (#[trigger] old_s[a]).0@ == k;
                        assert(a0 != i);
                        let a = if a0 < i { a0 } else { a0 - 1 };
                        assert(s[a].0@ == k);
                    }
                }
                Ok(())
            },
            None => Err(Error::Checkpoint(compose_msg("Checkpoint not found: ", id))),
        }
    }
}

impl<S: StateValue> Default for MemoryCheckpointStore<S> {
    /// An empty store.
    fn default() -> (r: Self)
        ensures
            r.wf(),
            r.checkpoints@.len() == 0,
    {
        MemoryCheckpointStore::new()
    }
}

} // verus!
