//! The durable key/value store the todo layer is built on.
//!
//! [`KvStore`] is the port through which the host environment's
//! path-addressed store is reached: a probe, a size query, a ranged read,
//! and a whole-value write, all specified against a map from paths to byte
//! values. [`MemStore`] is an in-memory store satisfying those contracts,
//! used by the tests; an adapter around a real host store lives outside
//! the verified library.

use vstd::prelude::*;

verus! {

/// Failure reported by the durable store.
#[derive(Clone, Copy, Debug, PartialEq, Eq, Structural)]
pub enum StoreError {
    /// The addressed path holds no value.
    PathNotFound,
    /// The requested range does not fit the stored value.
    OutOfBounds,
    /// The store could not complete a write (a store-level error such as
    /// exhausted quota).
    WriteFailed,
}

/// A hierarchical key/value store, keyed by slash-segmented byte paths.
pub trait KvStore: Sized {
    /// The current contents: a map from paths to byte values. Each store
    /// gives its own definition; unverified adapters outside the library
    /// leave the default, which no proof relies on.
    open spec fn contents(&self) -> Map<Seq<u8>, Seq<u8>> {
        Map::empty()
    }

    /// Whether a value is stored at `path`.
    fn has(&self, path: &Vec<u8>) -> (r: bool)
        ensures
            r == self.contents().contains_key(path@),
    ;

    /// The size in bytes of the value at `path`; fails exactly when the
    /// path is absent.
    fn value_size(&self, path: &Vec<u8>) -> (r: Result<usize, StoreError>)
        ensures
            match r {
                Ok(n) => self.contents().contains_key(path@) && n == self.contents()[path@].len(),
                Err(e) => e == StoreError::PathNotFound && !self.contents().contains_key(path@),
            },
    ;

    /// `size` bytes of the value at `path`, starting at `offset`; fails
    /// exactly when the path is absent or the range does not fit.
    fn read(&self, path: &Vec<u8>, offset: usize, size: usize) -> (r: Result<Vec<u8>, StoreError>)
        ensures
            match r {
                Ok(v) => self.contents().contains_key(path@) && offset + size
                    <= self.contents()[path@].len() && v@ == self.contents()[path@].subrange(
                    offset as int,
                    offset + size,
                ),
                Err(e) => (e == StoreError::PathNotFound && !self.contents().contains_key(path@))
                    || (e == StoreError::OutOfBounds && self.contents().contains_key(path@)
                    && offset + size > self.contents()[path@].len()),
            },
    ;

    /// Stores `value` at `path`, replacing any prior value there; on
    /// failure the contents are unchanged. Writes start at the beginning
    /// of the value.
    fn write(&mut self, path: &Vec<u8>, value: &Vec<u8>, offset: usize) -> (r: Result<
        (),
        StoreError,
    >)
        requires
            offset == 0,
        ensures
            match r {
                Ok(()) => final(self).contents() == old(self).contents().insert(path@, value@),
                Err(e) => e == StoreError::WriteFailed && final(self).contents() == old(
                    self,
                ).contents(),
            },
    ;
}

/// The contents described by an association list, later entries winning.
spec fn assoc_contents(s: Seq<(Vec<u8>, Vec<u8>)>) -> Map<Seq<u8>, Seq<u8>>
    decreases s.len(),
{
    if s.len() == 0 {
        Map::empty()
    } else {
        assoc_contents(s.drop_last()).insert(s.last().0@, s.last().1@)
    }
}

/// If `s[i]` is the last entry for key `k`, the contents map `k` to its value.
proof fn lemma_assoc_last_match(s: Seq<(Vec<u8>, Vec<u8>)>, k: Seq<u8>, i: int)
    requires
        0 <= i < s.len(),
        s[i].0@ == k,
        forall|j: int| i < j < s.len() ==> #[trigger] s[j].0@ != k,
    ensures
        assoc_contents(s).contains_key(k),
        assoc_contents(s)[k] == s[i].1@,
    decreases s.len(),
{
    if i == s.len() - 1 {
    } else {
        assert(s.drop_last()[i] == s[i]);
        lemma_assoc_last_match(s.drop_last(), k, i);
        assert(s.last().0@ != k);
    }
}

/// If no entry has key `k`, the contents hold nothing at `k`.
proof fn lemma_assoc_no_match(s: Seq<(Vec<u8>, Vec<u8>)>, k: Seq<u8>)
    requires
        forall|j: int| 0 <= j < s.len() ==> #[trigger] s[j].0@ != k,
    ensures
        !assoc_contents(s).contains_key(k),
    decreases s.len(),
{
    if s.len() > 0 {
        assert forall|j: int| 0 <= j < s.drop_last().len() implies #[trigger] s.drop_last()[j].0@
            != k by {
            assert(s.drop_last()[j] == s[j]);
        }
        lemma_assoc_no_match(s.drop_last(), k);
        assert(s.last().0@ != k);
    }
}

/// Whether two byte vectors hold the same bytes.
fn bytes_eq(a: &Vec<u8>, b: &Vec<u8>) -> (r: bool)
    ensures
        r == (a@ == b@),
{
    if a.len() != b.len() {
        assert(a@ != b@) by {
            assert(a@.len() != b@.len());
        }
        return false;
    }
    let mut i: usize = 0;
    while i < a.len()
        invariant
            0 <= i <= a@.len(),
            a@.len() == b@.len(),
            forall|j: int| 0 <= j < i ==> a@[j] == b@[j],
        decreases a@.len() - i,
    {
        if a[i] != b[i] {
            return false;
        }
        i += 1;
    }
    proof {
        assert(a@ =~= b@);
    }
    true
}

/// An in-memory key/value store: an append-only association list whose
/// later entries win.
pub struct MemStore {
    entries: Vec<(Vec<u8>, Vec<u8>)>,
}

impl MemStore {
    /// An empty store.
    pub fn new() -> (r: MemStore)
        ensures
            r.contents() == Map::<Seq<u8>, Seq<u8>>::empty(),
    {
        MemStore { entries: Vec::new() }
    }

    /// The index of the entry that currently holds `path`, scanning from
    /// the newest entry backwards.
    fn find(&self, path: &Vec<u8>) -> (r: Option<usize>)
        ensures
            match r {
                Some(i) => i < self.entries@.len() && self.entries@[i as int].0@ == path@
                    && self.contents().contains_key(path@) && self.contents()[path@]
                    == self.entries@[i as int].1@,
                None => !self.contents().contains_key(path@),
            },
    {
        let mut i: usize = self.entries.len();
        while i > 0
            invariant
                0 <= i <= self.entries@.len(),
                forall|j: int| i <= j < self.entries@.len() ==> #[trigger] self.entries@[j].0@
                    != path@,
            decreases i,
        {
            i = i - 1;
            if bytes_eq(&self.entries[i].0, path) {
                proof {
                    lemma_assoc_last_match(self.entries@, path@, i as int);
                }
                return Some(i);
            }
        }
        proof {
            lemma_assoc_no_match(self.entries@, path@);
        }
        None
    }
}

impl KvStore for MemStore {
    closed spec fn contents(&self) -> Map<Seq<u8>, Seq<u8>> {
        assoc_contents(self.entries@)
    }

    fn has(&self, path: &Vec<u8>) -> (r: bool) {
        self.find(path).is_some()
    }

    fn value_size(&self, path: &Vec<u8>) -> (r: Result<usize, StoreError>) {
        match self.find(path) {
            Some(i) => Ok(self.entries[i].1.len()),
            None => Err(StoreError::PathNotFound),
        }
    }

    fn read(&self, path: &Vec<u8>, offset: usize, size: usize) -> (r: Result<Vec<u8>, StoreError>) {
        match self.find(path) {
            Some(i) => {
                let value = &self.entries[i].1;
                if offset > value.len() || size > value.len() - offset {
                    return Err(StoreError::OutOfBounds);
                }
                let part = vstd::slice::slice_subrange(value.as_slice(), offset, offset + size);
                Ok(vstd::slice::slice_to_vec(part))
            },
            None => Err(StoreError::PathNotFound),
        }
    }

    fn write(&mut self, path: &Vec<u8>, value: &Vec<u8>, offset: usize) -> (r: Result<
        (),
        StoreError,
    >) {
        let entry = (clone_bytes(path), clone_bytes(value));
        self.entries.push(entry);
        proof {
            assert(self.entries@.drop_last() =~= old(self).entries@);
        }
        Ok(())
    }
}

/// A copy of a byte vector.
fn clone_bytes(v: &Vec<u8>) -> (r: Vec<u8>)
    ensures
        r@ == v@,
{
    let mut out: Vec<u8> = Vec::new();
    let mut i: usize = 0;
    while i < v.len()
        invariant
            0 <= i <= v@.len(),
            out@ == v@.take(i as int),
        decreases v@.len() - i,
    {
        out.push(v[i]);
        proof {
            assert(v@.take(i as int).push(v@[i as int]) =~= v@.take(i as int + 1));
        }
        i += 1;
    }
    proof {
        assert(v@.take(v@.len() as int) =~= v@);
    }
    out
}

} // verus!
