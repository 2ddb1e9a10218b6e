//! Paths inside a source: a sequence of segments, each a string of bytes
//! that is compared byte by byte and never interpreted.

use vstd::prelude::*;
use crate::process::compress::copy_bytes;

verus! {

/// One segment of a path: the name of an entry, as raw bytes.
pub type Segment = Vec<u8>;

/// What a list of segments holds.
pub open spec fn spec_segments(path: Seq<Segment>) -> Seq<Seq<u8>> {
    Seq::new(path.len(), |i: int| path[i]@)
}

/// Whether two strings of bytes are equal.
pub fn bytes_eq(a: &[u8], b: &[u8]) -> (r: bool)
    ensures
        r == (a@ == b@),
{
    if a.len() != b.len() {
        return false;
    }
    let mut i: usize = 0;
    while i < a.len()
        invariant
            i <= a@.len(),
            a@.len() == b@.len(),
            forall|j: int| 0 <= j < i ==> a@[j] == b@[j],
        decreases a@.len() - i,
    {
        if a[i] != b[i] {
            return false;
        }
        i = i + 1;
    }
    assert(a@ =~= b@);
    true
}

/// An owned path.
#[derive(Debug, Clone, PartialEq, Eq)]
pub struct PathBuf(pub Vec<Segment>);

impl View for PathBuf {
    type V = Seq<Seq<u8>>;

    open spec fn view(&self) -> Seq<Seq<u8>> {
        spec_segments(self.0@)
    }
}

impl PathBuf {
    /// The empty path: the root of a source.
    pub fn new() -> (r: Self)
        ensures
            r@ == Seq::<Seq<u8>>::empty(),
    {
        let r = PathBuf(Vec::new());
        assert(r@ =~= Seq::<Seq<u8>>::empty());
        r
    }

    /// The empty path, with room for `capacity` segments.
    pub fn with_capacity(capacity: usize) -> (r: Self)
        ensures
            r@ == Seq::<Seq<u8>>::empty(),
    {
        let r = PathBuf(Vec::with_capacity(capacity));
        assert(r@ =~= Seq::<Seq<u8>>::empty());
        r
    }

    /// Appends a segment.
    pub fn push(&mut self, segment: Segment)
        ensures
            final(self)@ == old(self)@.push(segment@),
    {
        self.0.push(segment);
        assert(self@ =~= old(self)@.push(segment@));
    }

    /// Takes the last segment off; `None` where the path is empty.
    pub fn pop(&mut self) -> (r: Option<Segment>)
        ensures
            old(self)@.len() == 0 ==> r is None && final(self)@ == old(self)@,
            old(self)@.len() > 0 ==> (r matches Some(s) && s@ == old(self)@.last() && final(self)@
                == old(self)@.drop_last()),
    {
        let r = self.0.pop();
        assert(old(self)@.len() > 0 ==> self@ =~= old(self)@.drop_last());
        assert(old(self)@.len() == 0 ==> self@ =~= old(self)@);
        r
    }

    /// The number of segments.
    pub fn len(&self) -> (r: usize)
        ensures
            r == self@.len(),
    {
        self.0.len()
    }

    /// The segments.
    pub fn segments(&self) -> (r: &[Segment])
        ensures
            spec_segments(r@) == self@,
    {
        self.0.as_slice()
    }

    /// A copy of the path.
    pub fn duplicate(&self) -> (r: Self)
        ensures
            r@ == self@,
    {
        let mut segments: Vec<Segment> = Vec::new();
        let mut i: usize = 0;
        while i < self.0.len()
            invariant
                i <= self.0@.len(),
                segments@.len() == i,
                forall|j: int| 0 <= j < i ==> segments@[j]@ == self.0@[j]@,
            decreases self.0@.len() - i,
        {
            segments.push(copy_bytes(self.0[i].as_slice()));
            i = i + 1;
        }
        let r = PathBuf(segments);
        assert(r@ =~= self@);
        r
    }
}

/// The first segment of a path and the rest of it; `None` where the path is
/// empty.
pub fn split_head(path: &[Segment]) -> (r: Option<(&Segment, &[Segment])>)
    ensures
        path@.len() == 0 ==> r is None,
        path@.len() > 0 ==> (r matches Some((head, tail)) && *head == path@[0] && tail@
            == path@.subrange(1, path@.len() as int)),
{
    if path.len() == 0 {
        None
    } else {
        Some((&path[0], vstd::slice::slice_subrange(path, 1, path.len())))
    }
}


/// The segment that names the directory above.
pub open spec fn spec_parent_segment() -> Seq<u8> {
    seq![46u8, 46u8]
}

/// Whether a path stays below where it starts: none of its segments names
/// the directory above.
pub open spec fn spec_stays_below(path: Seq<Seq<u8>>) -> bool {
    forall|i: int| 0 <= i < path.len() ==> #[trigger] path[i] != spec_parent_segment()
}

/// Whether a path stays below where it starts.
pub fn stays_below(path: &[Segment]) -> (r: bool)
    ensures
        r == spec_stays_below(spec_segments(path@)),
{
    let mut i: usize = 0;
    while i < path.len()
        invariant
            i <= path@.len(),
            forall|j: int| 0 <= j < i ==> #[trigger] spec_segments(path@)[j] != spec_parent_segment(),
        decreases path@.len() - i,
    {
        let segment = &path[i];
        if segment.len() == 2 && segment[0] == 46 && segment[1] == 46 {
            assert(segment@ =~= spec_parent_segment());
            assert(spec_segments(path@)[i as int] == spec_parent_segment());
            return false;
        }
        assert(spec_segments(path@)[i as int] != spec_parent_segment()) by {
            if segment@ == spec_parent_segment() {
                assert(segment@.len() == 2 && segment@[0] == 46 && segment@[1] == 46);
            }
        }
        i = i + 1;
    }
    true
}


/// The segments of a path, each after a slash but the first.
pub open spec fn spec_joined(path: Seq<Seq<u8>>) -> Seq<u8>
    decreases path.len(),
{
    if path.len() == 0 {
        Seq::empty()
    } else if path.len() == 1 {
        path[0]
    } else {
        spec_joined(path.drop_last()) + seq![47u8] + path.last()
    }
}

impl PathBuf {
    /// The path as it is written: the segments with a slash between them.
    pub fn joined(&self) -> (out: Vec<u8>)
        ensures
            out@ == spec_joined(self@),
    {
        let mut out: Vec<u8> = Vec::new();
        let mut i: usize = 0;
        assert(self@.subrange(0, 0) =~= Seq::<Seq<u8>>::empty());
        while i < self.0.len()
            invariant
                i <= self.0@.len(),
                self@.len() == self.0@.len(),
                out@ == spec_joined(self@.subrange(0, i as int)),
            decreases self.0@.len() - i,
        {
            let ghost next = self@.subrange(0, i + 1);
            proof {
                assert(next.drop_last() =~= self@.subrange(0, i as int));
                assert(next.last() == self.0@[i as int]@);
            }
            if i > 0 {
                out.push(47);
            }
            crate::process::format::put_all(&mut out, self.0[i].as_slice());
            proof {
                if i == 0 {
                    assert(out@ =~= next[0]);
                } else {
                    assert(out@ =~= spec_joined(next.drop_last()) + seq![47u8] + next.last());
                }
            }
            i = i + 1;
        }
        assert(self@.subrange(0, i as int) =~= self@);
        out
    }
}

} // verus!
