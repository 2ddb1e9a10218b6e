//! An object store in memory.

use vstd::prelude::*;
use crate::backend::{BackendError, BackendRead, BackendWrite, Objects};
use crate::id::Id;
use crate::obj::{ObjectKind, ObjectMetadata};
use crate::process::compress::copy_bytes;
use crate::process::format::put_all;

verus! {

/// One stored object.
#[derive(Debug)]
struct Entry {
    kind: ObjectKind,
    id: Id,
    bytes: Vec<u8>,
}

/// An object store that keeps everything in memory: for tests, and for a
/// repository that need not outlive the process.
#[derive(Debug)]
pub struct MemoryBackend {
    mount: String,
    created: bool,
    entries: Vec<Entry>,
}

spec fn spec_key(e: Entry) -> (ObjectKind, Seq<u8>) {
    (e.kind, e.id@)
}

spec fn spec_unique(es: Seq<Entry>) -> bool {
    forall|i: int, j: int|
        0 <= i < j < es.len() ==> spec_key(#[trigger] es[i]) != spec_key(#[trigger] es[j])
}

spec fn spec_holds(es: Seq<Entry>, k: (ObjectKind, Seq<u8>)) -> bool {
    exists|i: int| 0 <= i < es.len() && spec_key(#[trigger] es[i]) == k
}

spec fn spec_at(es: Seq<Entry>, k: (ObjectKind, Seq<u8>)) -> int {
    choose|i: int| 0 <= i < es.len() && spec_key(#[trigger] es[i]) == k
}

spec fn spec_objects(es: Seq<Entry>) -> Objects {
    Map::new(
        |k: (ObjectKind, Seq<u8>)| spec_holds(es, k),
        |k: (ObjectKind, Seq<u8>)| es[spec_at(es, k)].bytes@,
    )
}

proof fn lemma_at(es: Seq<Entry>, i: int)
    requires
        spec_unique(es),
        0 <= i < es.len(),
    ensures
        spec_holds(es, spec_key(es[i])),
        spec_at(es, spec_key(es[i])) == i,
        spec_objects(es).contains_key(spec_key(es[i])),
        spec_objects(es)[spec_key(es[i])] == es[i].bytes@,
{
    let k = spec_key(es[i]);
    assert(spec_holds(es, k));
    let j = spec_at(es, k);
    assert(0 <= j < es.len() && spec_key(es[j]) == k);
    if j < i {
        assert(spec_key(es[j]) != spec_key(es[i]));
    } else if i < j {
        assert(spec_key(es[i]) != spec_key(es[j]));
    }
}

#[verifier::rlimit(50)]
proof fn lemma_push(es: Seq<Entry>, e: Entry)
    requires
        spec_unique(es),
        !spec_holds(es, spec_key(e)),
    ensures
        spec_unique(es.push(e)),
        spec_objects(es.push(e)) == spec_objects(es).insert(spec_key(e), e.bytes@),
{
    let after = es.push(e);
    assert forall|i: int, j: int| 0 <= i < j < after.len() implies spec_key(#[trigger] after[i])
        != spec_key(#[trigger] after[j]) by {
        if j == es.len() {
            assert(after[i] == es[i]);
            if spec_key(es[i]) == spec_key(e) {
                assert(spec_holds(es, spec_key(e)));
            }
        } else {
            assert(after[i] == es[i] && after[j] == es[j]);
        }
    }
    let want = spec_objects(es).insert(spec_key(e), e.bytes@);
    let got = spec_objects(after);
    assert forall|k: (ObjectKind, Seq<u8>)| got.contains_key(k) == want.contains_key(k) by {
        if spec_holds(es, k) {
            let i = spec_at(es, k);
            assert(spec_key(after[i]) == k);
        }
        if spec_holds(after, k) {
            let i = spec_at(after, k);
            if i < es.len() {
                assert(spec_key(es[i]) == k);
            }
        }
        if k == spec_key(e) {
            assert(spec_key(after[es.len() as int]) == k);
        }
    }
    assert forall|k: (ObjectKind, Seq<u8>)| got.contains_key(k) implies got[k] == want[k] by {
        let i = spec_at(after, k);
        lemma_at(after, i);
        if i < es.len() {
            assert(after[i] == es[i]);
            lemma_at(es, i);
        }
    }
    assert(got =~= want);
}

#[verifier::rlimit(50)]
proof fn lemma_update(es: Seq<Entry>, i: int, e: Entry)
    requires
        spec_unique(es),
        0 <= i < es.len(),
        spec_key(e) == spec_key(es[i]),
    ensures
        spec_unique(es.update(i, e)),
        spec_objects(es.update(i, e)) == spec_objects(es).insert(spec_key(e), e.bytes@),
{
    let after = es.update(i, e);
    assert forall|a: int, b: int| 0 <= a < b < after.len() implies spec_key(#[trigger] after[a])
        != spec_key(#[trigger] after[b]) by {
        assert(spec_key(after[a]) == spec_key(es[a]));
        assert(spec_key(after[b]) == spec_key(es[b]));
    }
    let want = spec_objects(es).insert(spec_key(e), e.bytes@);
    let got = spec_objects(after);
    assert forall|k: (ObjectKind, Seq<u8>)| got.contains_key(k) == want.contains_key(k) by {
        if spec_holds(es, k) {
            let j = spec_at(es, k);
            assert(spec_key(after[j]) == k);
        }
        if spec_holds(after, k) {
            let j = spec_at(after, k);
            assert(spec_key(es[j]) == k);
        }
        lemma_at(es, i);
    }
    assert forall|k: (ObjectKind, Seq<u8>)| got.contains_key(k) implies got[k] == want[k] by {
        let j = spec_at(after, k);
        lemma_at(after, j);
        if j != i {
            assert(after[j] == es[j]);
            lemma_at(es, j);
            lemma_at(es, i);
        }
    }
    assert(got =~= want);
}

#[verifier::rlimit(50)]
proof fn lemma_remove(es: Seq<Entry>, i: int)
    requires
        spec_unique(es),
        0 <= i < es.len(),
    ensures
        spec_unique(es.remove(i)),
        spec_objects(es.remove(i)) == spec_objects(es).remove(spec_key(es[i])),
{
    let after = es.remove(i);
    assert forall|a: int, b: int| 0 <= a < b < after.len() implies spec_key(#[trigger] after[a])
        != spec_key(#[trigger] after[b]) by {
        let a0 = if a < i {
            a
        } else {
            a + 1
        };
        let b0 = if b < i {
            b
        } else {
            b + 1
        };
        assert(after[a] == es[a0] && after[b] == es[b0]);
    }
    let want = spec_objects(es).remove(spec_key(es[i]));
    let got = spec_objects(after);
    assert forall|k: (ObjectKind, Seq<u8>)| got.contains_key(k) == want.contains_key(k) by {
        if spec_holds(after, k) {
            let j = spec_at(after, k);
            let j0 = if j < i {
                j
            } else {
                j + 1
            };
            assert(after[j] == es[j0]);
            assert(spec_key(es[j0]) == k);
            if k == spec_key(es[i]) {
                lemma_at(es, i);
                lemma_at(es, j0);
            }
        }
        if spec_holds(es, k) && k != spec_key(es[i]) {
            let j0 = spec_at(es, k);
            let j = if j0 < i {
                j0
            } else {
                j0 - 1
            };
            assert(after[j] == es[j0]);
            assert(spec_key(after[j]) == k);
        }
    }
    assert forall|k: (ObjectKind, Seq<u8>)| got.contains_key(k) implies got[k] == want[k] by {
        let j = spec_at(after, k);
        lemma_at(after, j);
        let j0 = if j < i {
            j
        } else {
            j + 1
        };
        assert(after[j] == es[j0]);
        lemma_at(es, j0);
    }
    assert(got =~= want);
}

impl MemoryBackend {
    #[verifier::type_invariant]
    spec fn inv(self) -> bool {
        spec_unique(self.entries@)
    }

    /// An empty store that reports `mount_point` as its place.
    pub fn new(mount_point: &str) -> (r: Self)
        ensures
            r.objects() == Map::<(ObjectKind, Seq<u8>), Seq<u8>>::empty(),
            !r.is_created(),
            r.mount() == mount_point@,
    {
        let r = Self { mount: mount_point.to_owned(), created: false, entries: Vec::new() };
        assert(r.objects() =~= Map::<(ObjectKind, Seq<u8>), Seq<u8>>::empty());
        r
    }

    /// The place of the object among the entries.
    fn position(&self, kind: ObjectKind, id: &Id) -> (r: Option<usize>)
        ensures
            match r {
                Some(i) => i < self.entries@.len() && spec_key(self.entries@[i as int]) == (
                    kind,
                    id@,
                ),
                None => !spec_holds(self.entries@, (kind, id@)),
            },
    {
        find_entry(&self.entries, kind, id)
    }
}

fn find_entry(entries: &Vec<Entry>, kind: ObjectKind, id: &Id) -> (r: Option<usize>)
    ensures
        match r {
            Some(i) => i < entries@.len() && spec_key(entries@[i as int]) == (kind, id@),
            None => !spec_holds(entries@, (kind, id@)),
        },
{
    let mut i: usize = 0;
    while i < entries.len()
        invariant
            i <= entries@.len(),
            forall|j: int| 0 <= j < i ==> spec_key(#[trigger] entries@[j]) != (kind, id@),
        decreases entries@.len() - i,
    {
        if entries[i].kind == kind && entries[i].id == *id {
            return Some(i);
        }
        i = i + 1;
    }
    None
}

impl BackendRead for MemoryBackend {
    closed spec fn objects(&self) -> Objects {
        spec_objects(self.entries@)
    }

    closed spec fn is_created(&self) -> bool {
        self.created
    }

    closed spec fn mount(&self) -> Seq<char> {
        self.mount@
    }

    fn mount_point(&self) -> (r: String) {
        self.mount.clone()
    }

    fn verify(&self) -> (r: Result<(), BackendError>)
        ensures
            r is Ok <==> self.is_created(),
            r matches Err(e) ==> e == BackendError::InvalidLayout,
    {
        if self.created {
            Ok(())
        } else {
            Err(BackendError::InvalidLayout)
        }
    }

    #[verifier::rlimit(50)]
    fn iter(&self, kind: ObjectKind) -> (r: Result<Vec<Id>, BackendError>)
        ensures
            r is Ok,
    {
        proof {
            use_type_invariant(&*self);
        }
        let mut ids: Vec<Id> = Vec::new();
        let ghost mut from: Seq<int> = Seq::empty();
        let mut i: usize = 0;
        while i < self.entries.len()
            invariant
                i <= self.entries@.len(),
                spec_unique(self.entries@),
                from.len() == ids@.len(),
                forall|j: int|
                    0 <= j < ids@.len() ==> 0 <= (#[trigger] from[j]) < i && self.entries@[from[j]].kind
                        == kind && self.entries@[from[j]].id == ids@[j],
                forall|a: int, b: int| 0 <= a < b < from.len() ==> from[a] < from[b],
                forall|n: int|
                    0 <= n < i && (#[trigger] self.entries@[n]).kind == kind ==> exists|j: int|
                        0 <= j < ids@.len() && from[j] == n,
            decreases self.entries@.len() - i,
        {
            if self.entries[i].kind == kind {
                let ghost before = ids@;
                let ghost from_before = from;
                ids.push(self.entries[i].id);
                proof {
                    from = from.push(i as int);
                    assert forall|n: int|
                        0 <= n < i + 1 && (#[trigger] self.entries@[n]).kind == kind implies exists|
                        j: int,
                    |
                        0 <= j < ids@.len() && from[j] == n by {
                        if n < i {
                            let j = choose|j: int| 0 <= j < before.len() && from_before[j] == n;
                            assert(from[j] == n);
                        } else {
                            assert(from[before.len() as int] == n);
                        }
                    }
                }
            }
            i = i + 1;
        }
        proof {
            let es = self.entries@;
            assert forall|j: int| 0 <= j < ids@.len() implies self.objects().contains_key(
                (kind, (#[trigger] ids@[j])@),
            ) by {
                lemma_at(es, from[j]);
            }
            assert forall|id: Seq<u8>| #[trigger]
                self.objects().contains_key((kind, id)) implies exists|j: int|
                0 <= j < ids@.len() && (#[trigger] ids@[j])@ == id by {
                let n = spec_at(es, (kind, id));
                assert(es[n].kind == kind);
                let j = choose|j: int| 0 <= j < ids@.len() && from[j] == n;
                assert(ids@[j]@ == id);
            }
            assert forall|a: int, b: int| 0 <= a < b < ids@.len() implies (#[trigger] ids@[a])@ != (
            #[trigger] ids@[b])@ by {
                assert(from[a] < from[b]);
                assert(spec_key(es[from[a]]) != spec_key(es[from[b]]));
            }
        }
        Ok(ids)
    }

    fn contains(&self, kind: ObjectKind, id: &Id) -> (r: Result<(), BackendError>)
        ensures
            r is Ok <==> self.objects().contains_key((kind, id@)),
            r matches Err(e) ==> e == BackendError::NotFound,
    {
        match self.position(kind, id) {
            Some(_) => Ok(()),
            None => Err(BackendError::NotFound),
        }
    }

    fn meta(&self, kind: ObjectKind, id: &Id) -> (r: Result<ObjectMetadata, BackendError>)
        ensures
            r is Ok <==> self.objects().contains_key((kind, id@)),
            r matches Ok(meta) ==> meta.accessed is None && meta.created is None && meta.modified
                is None,
            r matches Err(e) ==> e == BackendError::NotFound,
    {
        proof {
            use_type_invariant(&*self);
        }
        match self.position(kind, id) {
            Some(i) => {
                proof {
                    lemma_at(self.entries@, i as int);
                }
                Ok(
                    ObjectMetadata {
                        accessed: None,
                        created: None,
                        modified: None,
                        len: self.entries[i].bytes.len() as u64,
                    },
                )
            },
            None => Err(BackendError::NotFound),
        }
    }

    fn read_at(&self, kind: ObjectKind, id: &Id, offset: u32, len: usize) -> (r: Result<
        Vec<u8>,
        BackendError,
    >)
        ensures
            r is Ok <==> self.objects().contains_key((kind, id@)) && offset + len
                <= self.objects()[(kind, id@)].len(),
            r matches Err(e) ==> e == (if self.objects().contains_key((kind, id@)) {
                BackendError::Io
            } else {
                BackendError::NotFound
            }),
    {
        proof {
            use_type_invariant(&*self);
        }
        match self.position(kind, id) {
            Some(i) => {
                proof {
                    lemma_at(self.entries@, i as int);
                }
                let bytes = &self.entries[i].bytes;
                let start = offset as usize;
                if start > bytes.len() || len > bytes.len() - start {
                    return Err(BackendError::Io);
                }
                let mut out: Vec<u8> = Vec::new();
                let mut n: usize = 0;
                while n < len
                    invariant
                        n <= len,
                        start + len <= bytes@.len(),
                        start + len <= usize::MAX,
                        out@ == bytes@.subrange(start as int, start + n),
                    decreases len - n,
                {
                    out.push(bytes[start + n]);
                    assert(out@ =~= bytes@.subrange(start as int, start + n + 1));
                    n = n + 1;
                }
                Ok(out)
            },
            None => Err(BackendError::NotFound),
        }
    }

    fn read_all(&self, kind: ObjectKind, id: &Id, buf: &mut Vec<u8>) -> (r: Result<
        usize,
        BackendError,
    >)
        ensures
            r is Ok <==> self.objects().contains_key((kind, id@)),
            r matches Err(e) ==> e == BackendError::NotFound && final(buf)@ == old(buf)@,
    {
        proof {
            use_type_invariant(&*self);
        }
        match self.position(kind, id) {
            Some(i) => {
                proof {
                    lemma_at(self.entries@, i as int);
                }
                put_all(buf, self.entries[i].bytes.as_slice());
                Ok(self.entries[i].bytes.len())
            },
            None => Err(BackendError::NotFound),
        }
    }
}

impl BackendWrite for MemoryBackend {
    fn create(&mut self) -> (r: Result<(), BackendError>)
        ensures
            r is Ok,
    {
        proof {
            use_type_invariant(&*self);
        }
        self.created = true;
        Ok(())
    }

    fn remove(&mut self, kind: ObjectKind, id: &Id) -> (r: Result<(), BackendError>)
        ensures
            r is Ok <==> old(self).objects().contains_key((kind, id@)),
            r matches Err(e) ==> e == BackendError::NotFound,
    {
        proof {
            use_type_invariant(&*self);
        }
        match self.position(kind, id) {
            Some(i) => {
                let mut entries: Vec<Entry> = Vec::new();
                std::mem::swap(&mut entries, &mut self.entries);
                proof {
                    lemma_at(entries@, i as int);
                    lemma_remove(entries@, i as int);
                }
                let _ = entries.remove(i);
                self.entries = entries;
                Ok(())
            },
            None => Err(BackendError::NotFound),
        }
    }

    fn write_all(&mut self, kind: ObjectKind, id: &Id, buf: &[u8]) -> (r: Result<
        (),
        BackendError,
    >)
        ensures
            r is Ok,
    {
        proof {
            use_type_invariant(&*self);
        }
        let found = self.position(kind, id);
        let entry = Entry { kind, id: *id, bytes: copy_bytes(buf) };
        let mut entries: Vec<Entry> = Vec::new();
        std::mem::swap(&mut entries, &mut self.entries);
        match found {
            Some(i) => {
                proof {
                    lemma_update(entries@, i as int, entry);
                }
                entries.set(i, entry);
            },
            None => {
                proof {
                    lemma_push(entries@, entry);
                }
                entries.push(entry);
            },
        }
        self.entries = entries;
        Ok(())
    }
}

} // verus!
