//! Indices: which pack holds which blob, and where.

use vstd::prelude::*;
use crate::id::Id;
use crate::obj::blob::BlobKind;
use crate::os::Timestamp;

verus! {

/// Where a blob lies in its pack.
#[derive(Debug, Clone, Copy, PartialEq, Eq)]
pub struct BlobEntry {
    pub id: Id,
    pub kind: BlobKind,
    /// Where the blob starts in the blob region of the pack.
    pub offset: u32,
    /// The length of the blob as it is stored.
    pub processed_len: u32,
    /// The length of what the blob holds.
    pub unprocessed_len: u32,
}

/// The blobs of one pack.
#[derive(Debug, Clone, PartialEq, Eq)]
pub struct PackEntry {
    pub id: Id,
    pub blobs: Vec<BlobEntry>,
    pub time: Option<Timestamp>,
    /// The size of the pack; never 0 where it is known.
    pub size: Option<u32>,
}

/// An index: packs with their blobs. An index may supersede older ones, and
/// may mark packs for deletion. A blob is found by the identifier of its
/// pack and its own.
#[derive(Debug, Clone, PartialEq, Eq)]
pub struct Index {
    pub supersedes: Vec<Id>,
    pub packs: Vec<PackEntry>,
    pub delete: Vec<Id>,
}

impl BlobEntry {
    /// The position after the last byte of the blob.
    pub open spec fn spec_end(self) -> int {
        self.offset + self.processed_len
    }
}

/// Whether the blob at place `i` ends before the next one starts.
pub open spec fn spec_follows(blobs: Seq<BlobEntry>, i: int) -> bool {
    blobs[i].spec_end() <= blobs[i + 1].offset
}

/// Whether the blobs lie one after the other without overlap: each starts
/// no earlier than the one before it ends.
pub open spec fn spec_ascending(blobs: Seq<BlobEntry>) -> bool {
    forall|i: int| 0 <= i < blobs.len() - 1 ==> #[trigger] spec_follows(blobs, i)
}

/// Whether no two of the blobs have the same identifier.
pub open spec fn spec_distinct(blobs: Seq<BlobEntry>) -> bool {
    forall|i: int, j: int|
        0 <= i < j < blobs.len() ==> (#[trigger] blobs[i]).id@ != (#[trigger] blobs[j]).id@
}

impl PackEntry {
    /// Whether the entry is well formed: its blobs lie one after the other
    /// without overlap, no two of them have the same identifier, and its
    /// size, where known, is not 0.
    pub open spec fn spec_well_formed(&self) -> bool {
        spec_ascending(self.blobs@) && spec_distinct(self.blobs@) && self.size != Some(0u32)
    }

    /// Whether no two blobs of the entry have the same identifier.
    pub fn has_distinct_blobs(&self) -> (r: bool)
        ensures
            r == spec_distinct(self.blobs@),
    {
        let mut j: usize = 0;
        while j < self.blobs.len()
            invariant
                j <= self.blobs@.len(),
                forall|a: int, b: int|
                    0 <= a < b < j ==> (#[trigger] self.blobs@[a]).id@ != (
                    #[trigger] self.blobs@[b]).id@,
            decreases self.blobs@.len() - j,
        {
            let mut i: usize = 0;
            while i < j
                invariant
                    i <= j < self.blobs@.len(),
                    forall|a: int| 0 <= a < i ==> (#[trigger] self.blobs@[a]).id@ != self.blobs@[j as int].id@,
                decreases j - i,
            {
                if self.blobs[i].id == self.blobs[j].id {
                    return false;
                }
                i = i + 1;
            }
            j = j + 1;
        }
        true
    }

    /// Whether the entry is well formed.
    pub fn is_well_formed(&self) -> (r: bool)
        ensures
            r == self.spec_well_formed(),
    {
        match self.size {
            Some(0) => {
                return false;
            },
            _ => {},
        }
        if !self.has_distinct_blobs() {
            return false;
        }
        if self.blobs.len() < 2 {
            return true;
        }
        let mut i: usize = 0;
        while i < self.blobs.len() - 1
            invariant
                self.blobs@.len() >= 2,
                spec_distinct(self.blobs@),
                self.size != Some(0u32),
                i <= self.blobs@.len() - 1,
                forall|j: int| 0 <= j < i ==> #[trigger] spec_follows(self.blobs@, j),
            decreases self.blobs@.len() - i,
        {
            let end: u64 = self.blobs[i].offset as u64 + self.blobs[i].processed_len as u64;
            if end > self.blobs[i + 1].offset as u64 {
                assert(!spec_follows(self.blobs@, i as int));
                return false;
            }
            assert(spec_follows(self.blobs@, i as int));
            i = i + 1;
        }
        true
    }

    /// The entry of the blob `id`: the first one of that identifier.
    pub fn find(&self, id: &Id) -> (r: Option<BlobEntry>)
        ensures
            match r {
                Some(entry) => entry.id@ == id@ && exists|i: int|
                    0 <= i < self.blobs@.len() && #[trigger] self.blobs@[i] == entry && forall|
                        j: int,
                    |
                        0 <= j < i ==> (#[trigger] self.blobs@[j]).id@ != id@,
                None => forall|i: int| 0 <= i < self.blobs@.len() ==> (#[trigger] self.blobs@[i]).id@ != id@,
            },
    {
        let mut i: usize = 0;
        while i < self.blobs.len()
            invariant
                i <= self.blobs@.len(),
                forall|j: int| 0 <= j < i ==> (#[trigger] self.blobs@[j]).id@ != id@,
            decreases self.blobs@.len() - i,
        {
            if self.blobs[i].id == *id {
                assert(self.blobs@[i as int] == self.blobs@[i as int]);
                return Some(self.blobs[i]);
            }
            i = i + 1;
        }
        None
    }
}

impl Index {
    /// Whether the index is well formed: every pack entry is.
    pub open spec fn spec_well_formed(&self) -> bool {
        forall|i: int| 0 <= i < self.packs@.len() ==> (#[trigger] self.packs@[i]).spec_well_formed()
    }

    /// Whether the index is well formed.
    pub fn is_well_formed(&self) -> (r: bool)
        ensures
            r == self.spec_well_formed(),
    {
        let mut i: usize = 0;
        while i < self.packs.len()
            invariant
                i <= self.packs@.len(),
                forall|j: int| 0 <= j < i ==> (#[trigger] self.packs@[j]).spec_well_formed(),
            decreases self.packs@.len() - i,
        {
            if !self.packs[i].is_well_formed() {
                return false;
            }
            i = i + 1;
        }
        true
    }

    /// The pack that holds the blob `id`, and where: of the first pack
    /// entry that has the blob.
    pub fn locate(&self, id: &Id) -> (r: Option<(Id, BlobEntry)>)
        ensures
            match r {
                Some((pack, entry)) => entry.id@ == id@ && exists|i: int, j: int|
                    0 <= i < self.packs@.len() && 0 <= j < self.packs@[i].blobs@.len()
                        && self.packs@[i].id == pack && #[trigger] self.packs@[i].blobs@[j]
                        == entry && forall|a: int, b: int|
                        0 <= a < i && 0 <= b < self.packs@[a].blobs@.len() ==> (
                        #[trigger] self.packs@[a].blobs@[b]).id@ != id@,
                None => forall|i: int, j: int|
                    0 <= i < self.packs@.len() && 0 <= j < self.packs@[i].blobs@.len() ==> (
                    #[trigger] self.packs@[i].blobs@[j]).id@ != id@,
            },
    {
        let mut i: usize = 0;
        while i < self.packs.len()
            invariant
                i <= self.packs@.len(),
                forall|a: int, b: int|
                    0 <= a < i && 0 <= b < self.packs@[a].blobs@.len() ==> (
                    #[trigger] self.packs@[a].blobs@[b]).id@ != id@,
            decreases self.packs@.len() - i,
        {
            match self.packs[i].find(id) {
                Some(entry) => {
                    proof {
                        let blobs = self.packs@[i as int].blobs@;
                        let j = choose|j: int| 0 <= j < blobs.len() && #[trigger] blobs[j] == entry;
                        assert(self.packs@[i as int].blobs@[j] == entry);
                    }
                    return Some((self.packs[i].id, entry));
                },
                None => {},
            }
            i = i + 1;
        }
        None
    }
}

} // verus!
