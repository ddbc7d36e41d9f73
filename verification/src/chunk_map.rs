//! The chunk registry: a sparse map from chunk-grid coordinates to voxel
//! grids, with at most one grid per key and overwrite-on-insert.

use vstd::prelude::*;
use crate::grid::Chunk;

verus! {

/// A sparse registry of voxel grids keyed by integer chunk-grid coordinates.
/// Stored as a flat list of key/chunk pairs whose keys are pairwise distinct.
pub struct ChunkMap {
    entries: Vec<((usize, usize, usize), Chunk)>,
}

impl ChunkMap {
    /// The stored key/chunk pairs, in insertion order.
    pub closed spec fn entries_seq(self) -> Seq<((usize, usize, usize), Chunk)> {
        self.entries@
    }

    /// At most one stored chunk per key.
    pub open spec fn wf(self) -> bool {
        forall|i: int, j: int|
            0 <= i < j < self.entries_seq().len() ==> (#[trigger] self.entries_seq()[i]).0
                != (#[trigger] self.entries_seq()[j]).0
    }

    /// Some chunk is stored at the key.
    pub open spec fn spec_contains(self, key: (usize, usize, usize)) -> bool {
        exists|i: int|
            0 <= i < self.entries_seq().len() && (#[trigger] self.entries_seq()[i]).0 == key
    }

    /// The chunk stored at the key, if any.
    pub open spec fn spec_get(self, key: (usize, usize, usize)) -> Option<Chunk> {
        if self.spec_contains(key) {
            let i = choose|i: int|
                0 <= i < self.entries_seq().len() && (#[trigger] self.entries_seq()[i]).0 == key;
            Some(self.entries_seq()[i].1)
        } else {
            None
        }
    }

    /// An empty registry.
    pub fn new() -> (r: ChunkMap)
        ensures
            r.wf(),
            r.entries_seq().len() == 0,
            forall|k: (usize, usize, usize)| !r.spec_contains(k),
    {
        ChunkMap { entries: Vec::new() }
    }

    /// A snapshot of all stored chunks. The order is a storage detail and
    /// must not be relied on across mutation.
    pub fn chunks(&self) -> (r: Vec<&Chunk>)
        ensures
            r@.len() == self.entries_seq().len(),
            forall|i: int| 0 <= i < r@.len() ==> *(#[trigger] r@[i]) == self.entries_seq()[i].1,
    {
        let n = self.entries.len();
        let mut r: Vec<&Chunk> = Vec::new();
        let mut i: usize = 0;
        while i < n
            invariant
                n == self.entries_seq().len(),
                i <= n,
                r@.len() == i,
                forall|j: int| 0 <= j < i ==> *(#[trigger] r@[j]) == self.entries_seq()[j].1,
            decreases n - i,
        {
            r.push(&self.entries[i].1);
            i = i + 1;
        }
        r
    }

    /// A read-only borrow of the chunk at the key; `None` if the key is absent.
    pub fn get_chunk(&self, offset: (usize, usize, usize)) -> (r: Option<&Chunk>)
        requires
            self.wf(),
        ensures
            r.is_some() == self.spec_contains(offset),
            r.is_some() ==> self.spec_get(offset) == Some(*r.unwrap()),
    {
        let n = self.entries.len();
        let mut i: usize = 0;
        while i < n
            invariant
                n == self.entries_seq().len(),
                i <= n,
                self.wf(),
                forall|j: int| 0 <= j < i ==> (#[trigger] self.entries_seq()[j]).0 != offset,
            decreases n - i,
        {
            let e = &self.entries[i];
            if e.0.0 == offset.0 && e.0.1 == offset.1 && e.0.2 == offset.2 {
                proof {
                    lemma_stored_pair_found(*self, i as int);
                }
                return Some(&self.entries[i].1);
            }
            i = i + 1;
        }
        None
    }

    /// A writable borrow of the chunk at the key; `None` if the key is absent,
    /// in which case the registry is unchanged.
    pub fn get_chunk_mut(&mut self, offset: (usize, usize, usize)) -> (r: Option<&mut Chunk>)
        requires
            old(self).wf(),
        ensures
            r.is_some() == old(self).spec_contains(offset),
            r.is_none() ==> *final(self) == *old(self),
            r.is_some() ==> old(self).spec_get(offset) == Some(*r.unwrap()),
            r.is_some() ==> exists|i: int|
                {
                    &&& 0 <= i < old(self).entries_seq().len()
                    &&& (#[trigger] old(self).entries_seq()[i]).0 == offset
                    &&& final(self).entries_seq() == old(self).entries_seq().update(
                        i,
                        (offset, *final(r.unwrap())),
                    )
                },
    {
        let n = self.entries.len();
        let mut i: usize = 0;
        while i < n
            invariant
                n == self.entries_seq().len(),
                i <= n,
                self.wf(),
                *self == *old(self),
                forall|j: int| 0 <= j < i ==> (#[trigger] self.entries_seq()[j]).0 != offset,
            decreases n - i,
        {
            let found = {
                let e = &self.entries[i];
                e.0.0 == offset.0 && e.0.1 == offset.1 && e.0.2 == offset.2
            };
            if found {
                proof {
                    lemma_stored_pair_found(*self, i as int);
                }
                return Some(&mut self.entries[i].1);
            }
            i = i + 1;
        }
        None
    }

    /// Stores a chunk at the key, replacing any chunk already there.
    pub fn insert_chunk(&mut self, offset: (usize, usize, usize), chunk: Chunk)
        requires
            old(self).wf(),
        ensures
            final(self).wf(),
            final(self).spec_get(offset) == Some(chunk),
            forall|k: (usize, usize, usize)|
                k != offset ==> #[trigger] final(self).spec_get(k) == old(self).spec_get(k),
            final(self).entries_seq().len() == old(self).entries_seq().len() + (
            if old(self).spec_contains(offset) {
                0int
            } else {
                1int
            }),
    {
        let n = self.entries.len();
        let mut i: usize = 0;
        while i < n
            invariant
                n == self.entries_seq().len(),
                i <= n,
                self.wf(),
                *self == *old(self),
                forall|j: int| 0 <= j < i ==> (#[trigger] self.entries_seq()[j]).0 != offset,
            decreases n - i,
        {
            let found = {
                let e = &self.entries[i];
                e.0.0 == offset.0 && e.0.1 == offset.1 && e.0.2 == offset.2
            };
            if found {
                let e = &mut self.entries[i];
                *e = (offset, chunk);
                proof {
                    lemma_replace_at_key(*old(self), *self, i as int, offset, chunk);
                }
                return;
            }
            i = i + 1;
        }
        self.entries.push((offset, chunk));
        proof {
            lemma_append_new_key(*old(self), *self, offset, chunk);
        }
    }
}

/// If the pair at index `i` carries `key`, the registry's unique match for
/// `key` is that very pair.
proof fn lemma_stored_pair_found(m: ChunkMap, i: int)
    requires
        m.wf(),
        0 <= i < m.entries_seq().len(),
    ensures
        m.spec_contains(m.entries_seq()[i].0),
        m.spec_get(m.entries_seq()[i].0) == Some(m.entries_seq()[i].1),
{
    let k = m.entries_seq()[i].0;
    assert(m.spec_contains(k));
    let w = choose|j: int|
        0 <= j < m.entries_seq().len() && (#[trigger] m.entries_seq()[j]).0 == k;
    if w < i {
        assert(m.entries_seq()[w].0 != m.entries_seq()[i].0);
    }
    if i < w {
        assert(m.entries_seq()[i].0 != m.entries_seq()[w].0);
    }
}

/// Two positions holding the same key are the same position.
proof fn lemma_key_index_unique(m: ChunkMap, i: int, j: int)
    requires
        m.wf(),
        0 <= i < m.entries_seq().len(),
        0 <= j < m.entries_seq().len(),
        m.entries_seq()[i].0 == m.entries_seq()[j].0,
    ensures
        i == j,
{
    if i < j {
        assert(m.entries_seq()[i].0 != m.entries_seq()[j].0);
    }
    if j < i {
        assert(m.entries_seq()[j].0 != m.entries_seq()[i].0);
    }
}

/// Replacing the chunk of an existing key keeps the registry well formed,
/// stores the new chunk at that key, and leaves every other key untouched.
proof fn lemma_replace_at_key(m0: ChunkMap, m1: ChunkMap, i: int, key: (usize, usize, usize), chunk: Chunk)
    requires
        m0.wf(),
        0 <= i < m0.entries_seq().len(),
        m0.entries_seq()[i].0 == key,
        m1.entries_seq() == m0.entries_seq().update(i, (key, chunk)),
    ensures
        m1.wf(),
        m1.spec_get(key) == Some(chunk),
        forall|k: (usize, usize, usize)|
            k != key ==> #[trigger] m1.spec_get(k) == m0.spec_get(k),
        m1.entries_seq().len() == m0.entries_seq().len(),
        m0.spec_contains(key),
{
    assert(forall|j: int|
        0 <= j < m1.entries_seq().len() ==> (#[trigger] m1.entries_seq()[j]).0
            == m0.entries_seq()[j].0);
    assert(m1.wf());
    lemma_stored_pair_found(m1, i);
    lemma_stored_pair_found(m0, i);
    assert forall|k: (usize, usize, usize)| k != key implies #[trigger] m1.spec_get(k)
        == m0.spec_get(k) by {
        if m1.spec_contains(k) {
            let w1 = choose|j: int|
                0 <= j < m1.entries_seq().len() && (#[trigger] m1.entries_seq()[j]).0 == k;
            assert(m0.entries_seq()[w1].0 == k);
            assert(m0.spec_contains(k));
            let w0 = choose|j: int|
                0 <= j < m0.entries_seq().len() && (#[trigger] m0.entries_seq()[j]).0 == k;
            lemma_key_index_unique(m0, w0, w1);
            assert(w1 != i);
            assert(m1.entries_seq()[w1].1 == m0.entries_seq()[w1].1);
        } else {
            if m0.spec_contains(k) {
                let w0 = choose|j: int|
                    0 <= j < m0.entries_seq().len() && (#[trigger] m0.entries_seq()[j]).0 == k;
                assert(m1.entries_seq()[w0].0 == k);
            }
        }
    }
}

/// Appending a pair whose key is absent keeps the registry well formed,
/// stores the chunk at that key, and leaves every other key untouched.
proof fn lemma_append_new_key(m0: ChunkMap, m1: ChunkMap, key: (usize, usize, usize), chunk: Chunk)
    requires
        m0.wf(),
        forall|j: int|
            0 <= j < m0.entries_seq().len() ==> (#[trigger] m0.entries_seq()[j]).0 != key,
        m1.entries_seq() == m0.entries_seq().push((key, chunk)),
    ensures
        m1.wf(),
        m1.spec_get(key) == Some(chunk),
        forall|k: (usize, usize, usize)|
            k != key ==> #[trigger] m1.spec_get(k) == m0.spec_get(k),
        m1.entries_seq().len() == m0.entries_seq().len() + 1,
        !m0.spec_contains(key),
{
    let n = m0.entries_seq().len() as int;
    assert(forall|j: int|
        0 <= j < n ==> #[trigger] m1.entries_seq()[j] == m0.entries_seq()[j]);
    assert(m1.entries_seq()[n] == (key, chunk));
    assert(m1.wf());
    lemma_stored_pair_found(m1, n);
    assert forall|k: (usize, usize, usize)| k != key implies #[trigger] m1.spec_get(k)
        == m0.spec_get(k) by {
        if m1.spec_contains(k) {
            let w1 = choose|j: int|
                0 <= j < m1.entries_seq().len() && (#[trigger] m1.entries_seq()[j]).0 == k;
            assert(w1 != n);
            assert(m0.entries_seq()[w1].0 == k);
            assert(m0.spec_contains(k));
            let w0 = choose|j: int|
                0 <= j < m0.entries_seq().len() && (#[trigger] m0.entries_seq()[j]).0 == k;
            lemma_key_index_unique(m0, w0, w1);
        } else {
            if m0.spec_contains(k) {
                let w0 = choose|j: int|
                    0 <= j < m0.entries_seq().len() && (#[trigger] m0.entries_seq()[j]).0 == k;
                assert(m1.entries_seq()[w0].0 == k);
            }
        }
    }
}

} // verus!
