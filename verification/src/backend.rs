//! The object store under a repository: bytes by object kind and
//! identifier.

use vstd::prelude::*;
use crate::id::Id;
use crate::obj::{ObjectKind, ObjectMetadata};

pub mod ext;
pub mod layout;
pub mod memory;
pub mod typed;

verus! {

/// Why a backend could not do what it was asked.
#[derive(Debug, Clone, Copy, PartialEq, Eq, Hash, Structural)]
pub enum BackendError {
    /// No object is stored under the kind and identifier.
    NotFound,
    /// The layout of the store is not that of a repository.
    InvalidLayout,
    /// The storage reported an error.
    Io,
}

/// What a backend holds: the bytes of each object, by kind and identifier.
pub type Objects = Map<(ObjectKind, Seq<u8>), Seq<u8>>;

/// Whether `ids` lists the objects of `kind` in `objects`: each of them
/// once, and nothing else.
pub open spec fn spec_lists(ids: Seq<Id>, objects: Objects, kind: ObjectKind) -> bool {
    &&& forall|j: int| 0 <= j < ids.len() ==> objects.contains_key((kind, (#[trigger] ids[j])@))
    &&& forall|id: Seq<u8>| #[trigger]
        objects.contains_key((kind, id)) ==> exists|j: int|
            0 <= j < ids.len() && (#[trigger] ids[j])@ == id
    &&& forall|a: int, b: int|
        0 <= a < b < ids.len() ==> (#[trigger] ids[a])@ != (#[trigger] ids[b])@
}

/// Read access to an object store.
///
/// Every operation may fail with an error of the storage; what it returns
/// when it succeeds is what the store holds.
pub trait BackendRead: Sized {
    /// The objects that the store holds. A backend says here what that is;
    /// one that does not leaves it open, and is trusted to do what the
    /// operations promise of it.
    open spec fn objects(&self) -> Objects {
        vstd::pervasive::arbitrary()
    }

    /// Whether the layout of a repository has been laid out in the store.
    open spec fn is_created(&self) -> bool {
        vstd::pervasive::arbitrary()
    }

    /// Where the store is: a path, a URL.
    open spec fn mount(&self) -> Seq<char> {
        vstd::pervasive::arbitrary()
    }

    /// Where the store is.
    fn mount_point(&self) -> (r: String)
        ensures
            r@ == self.mount(),
    ;

    /// Succeeds only where the layout of a repository is in place.
    fn verify(&self) -> (r: Result<(), BackendError>)
        ensures
            r is Ok ==> self.is_created(),
    ;

    /// The identifiers of the objects of `kind`, each once, in no
    /// particular order.
    fn iter(&self, kind: ObjectKind) -> (r: Result<Vec<Id>, BackendError>)
        ensures
            r matches Ok(ids) ==> spec_lists(ids@, self.objects(), kind),
    ;

    /// Succeeds only where the object is stored; fails with `NotFound` only
    /// where it is not.
    fn contains(&self, kind: ObjectKind, id: &Id) -> (r: Result<(), BackendError>)
        ensures
            r is Ok ==> self.objects().contains_key((kind, id@)),
            r == Err::<(), BackendError>(BackendError::NotFound) ==> !self.objects().contains_key(
                (kind, id@),
            ),
    ;

    /// What the store knows of the object besides its bytes.
    fn meta(&self, kind: ObjectKind, id: &Id) -> (r: Result<ObjectMetadata, BackendError>)
        ensures
            r matches Ok(meta) ==> self.objects().contains_key((kind, id@)) && meta.len
                == self.objects()[(kind, id@)].len(),
            r == Err::<ObjectMetadata, BackendError>(BackendError::NotFound)
                ==> !self.objects().contains_key((kind, id@)),
    ;

    /// The `len` bytes of the object that start at `offset`.
    fn read_at(&self, kind: ObjectKind, id: &Id, offset: u32, len: usize) -> (r: Result<
        Vec<u8>,
        BackendError,
    >)
        ensures
            r matches Ok(bytes) ==> self.objects().contains_key((kind, id@)) && offset + len
                <= self.objects()[(kind, id@)].len() && bytes@ == self.objects()[(
                kind,
                id@,
            )].subrange(offset as int, offset + len),
            r == Err::<Vec<u8>, BackendError>(BackendError::NotFound)
                ==> !self.objects().contains_key((kind, id@)),
    ;

    /// Appends the bytes of the object to `buf` and returns their number.
    fn read_all(&self, kind: ObjectKind, id: &Id, buf: &mut Vec<u8>) -> (r: Result<
        usize,
        BackendError,
    >)
        ensures
            r matches Ok(n) ==> self.objects().contains_key((kind, id@)) && final(buf)@ == old(
                buf,
            )@ + self.objects()[(kind, id@)] && n == self.objects()[(kind, id@)].len(),
            r == Err::<usize, BackendError>(BackendError::NotFound)
                ==> !self.objects().contains_key((kind, id@)),
    ;
}

/// Write access to an object store.
///
/// An operation that fails leaves the objects as they were: no reader ever
/// sees part of an object.
pub trait BackendWrite: BackendRead {
    /// Lays out the layout of a repository. Objects that the store holds stay
    /// as they are, so that laying out twice does no harm.
    fn create(&mut self) -> (r: Result<(), BackendError>)
        ensures
            r is Ok ==> final(self).is_created(),
            final(self).objects() == old(self).objects(),
            final(self).mount() == old(self).mount(),
    ;

    /// Removes the object.
    fn remove(&mut self, kind: ObjectKind, id: &Id) -> (r: Result<(), BackendError>)
        ensures
            final(self).is_created() == old(self).is_created(),
            final(self).mount() == old(self).mount(),
            r is Ok ==> final(self).objects() == old(self).objects().remove((kind, id@)),
            r is Err ==> final(self).objects() == old(self).objects(),
            r == Err::<(), BackendError>(BackendError::NotFound) ==> !old(
                self,
            ).objects().contains_key((kind, id@)),
    ;

    /// Stores `buf` as the object, in place of what was stored under the
    /// kind and identifier before.
    fn write_all(&mut self, kind: ObjectKind, id: &Id, buf: &[u8]) -> (r: Result<
        (),
        BackendError,
    >)
        ensures
            final(self).is_created() == old(self).is_created(),
            final(self).mount() == old(self).mount(),
            r is Ok ==> final(self).objects() == old(self).objects().insert((kind, id@), buf@),
            r is Err ==> final(self).objects() == old(self).objects(),
    ;
}


} // verus!
