//! A backend whose operations are sorted by object kind: the one
//! configuration has no identifier to name, and only packs are read in
//! parts.

use vstd::prelude::*;
use vstd::string::StringSliceAdditionalSpecFns;
use crate::backend::ext::{
    find_id, find_ids, read_to_end, spec_found, spec_search, spec_search_each, Find,
};
use crate::backend::{spec_lists, BackendError, BackendRead, BackendWrite, Objects};
use crate::id::Id;
use crate::obj::{ObjectKind, ObjectMetadata};

verus! {

/// A backend, to be used kind by kind.
#[derive(Debug)]
pub struct TypedBackend<B>(B);

/// Read access to the one object of a kind that holds one object: it is
/// stored under the identifier of all zeros.
pub trait GenericReadDid {
    /// The backend that is read.
    type Backend: BackendRead;

    /// The backend that is read. Each operation asks it, and returns what
    /// it answers.
    spec fn backend(&self) -> Self::Backend;

    /// The objects of the backend.
    spec fn objects(&self) -> Objects;

    /// The kind that is read.
    spec fn kind(&self) -> ObjectKind;

    /// Succeeds only where the object is stored.
    fn contains(&self) -> (r: Result<(), BackendError>)
        ensures
            call_ensures(<Self::Backend as BackendRead>::contains, (&self.backend(), self.kind(), &Id::spec_zero()), r),
            r is Ok ==> self.objects().contains_key((self.kind(), Id::spec_zero()@)),
            r == Err::<(), BackendError>(BackendError::NotFound) ==> !self.objects().contains_key(
                (self.kind(), Id::spec_zero()@),
            ),
    ;

    /// What the store knows of the object besides its bytes. Fails with
    /// `NotFound` only where the object is not stored.
    fn meta(&self) -> (r: Result<ObjectMetadata, BackendError>)
        ensures
            call_ensures(<Self::Backend as BackendRead>::meta, (&self.backend(), self.kind(), &Id::spec_zero()), r),
            r matches Ok(meta) ==> self.objects().contains_key((self.kind(), Id::spec_zero()@))
                && meta.len == self.objects()[(self.kind(), Id::spec_zero()@)].len(),
            r == Err::<ObjectMetadata, BackendError>(BackendError::NotFound)
                ==> !self.objects().contains_key((self.kind(), Id::spec_zero()@)),
    ;

    /// Appends the bytes of the object to `buf` and returns their number.
    fn read_all(&self, buf: &mut Vec<u8>) -> (r: Result<usize, BackendError>)
        ensures
            r matches Ok(n) ==> self.objects().contains_key((self.kind(), Id::spec_zero()@))
                && final(buf)@ == old(buf)@ + self.objects()[(self.kind(), Id::spec_zero()@)] && n
                == self.objects()[(self.kind(), Id::spec_zero()@)].len(),
            r == Err::<usize, BackendError>(BackendError::NotFound)
                ==> !self.objects().contains_key((self.kind(), Id::spec_zero()@)),
    ;

    /// Reads the object whole.
    fn read_to_end(&self) -> (r: Result<Vec<u8>, BackendError>)
        ensures
            r matches Ok(bytes) ==> self.objects().contains_key((self.kind(), Id::spec_zero()@))
                && bytes@ == self.objects()[(self.kind(), Id::spec_zero()@)],
            r == Err::<Vec<u8>, BackendError>(BackendError::NotFound)
                ==> !self.objects().contains_key((self.kind(), Id::spec_zero()@)),
    ;
}

/// Read access to the objects of one kind.
pub trait GenericRead {
    /// The backend that is read.
    type Backend: BackendRead;

    /// The backend that is read. Each operation asks it, and returns what
    /// it answers.
    spec fn backend(&self) -> Self::Backend;

    /// The objects of the backend.
    spec fn objects(&self) -> Objects;

    /// The kind that is read.
    spec fn kind(&self) -> ObjectKind;

    /// Succeeds only where the object is stored.
    fn contains(&self, id: &Id) -> (r: Result<(), BackendError>)
        ensures
            call_ensures(<Self::Backend as BackendRead>::contains, (&self.backend(), self.kind(), id), r),
            r is Ok ==> self.objects().contains_key((self.kind(), id@)),
            r == Err::<(), BackendError>(BackendError::NotFound) ==> !self.objects().contains_key(
                (self.kind(), id@),
            ),
    ;

    /// The identifiers of the objects of the kind, each once.
    fn iter(&self) -> (r: Result<Vec<Id>, BackendError>)
        ensures
            call_ensures(<Self::Backend as BackendRead>::iter, (&self.backend(), self.kind()), r),
            r matches Ok(ids) ==> spec_lists(ids@, self.objects(), self.kind()),
    ;

    /// What the store knows of the object besides its bytes. Fails with
    /// `NotFound` only where the object is not stored.
    fn meta(&self, id: &Id) -> (r: Result<ObjectMetadata, BackendError>)
        ensures
            call_ensures(<Self::Backend as BackendRead>::meta, (&self.backend(), self.kind(), id), r),
            r matches Ok(meta) ==> self.objects().contains_key((self.kind(), id@)) && meta.len
                == self.objects()[(self.kind(), id@)].len(),
            r == Err::<ObjectMetadata, BackendError>(BackendError::NotFound)
                ==> !self.objects().contains_key((self.kind(), id@)),
    ;

    /// Appends the bytes of the object to `buf` and returns their number.
    fn read_all(&self, id: &Id, buf: &mut Vec<u8>) -> (r: Result<usize, BackendError>)
        ensures
            r matches Ok(n) ==> self.objects().contains_key((self.kind(), id@)) && final(buf)@
                == old(buf)@ + self.objects()[(self.kind(), id@)] && n == self.objects()[(
                self.kind(),
                id@,
            )].len(),
            r == Err::<usize, BackendError>(BackendError::NotFound)
                ==> !self.objects().contains_key((self.kind(), id@)),
    ;

    /// Reads the object whole.
    fn read_to_end(&self, id: &Id) -> (r: Result<Vec<u8>, BackendError>)
        ensures
            r matches Ok(bytes) ==> self.objects().contains_key((self.kind(), id@)) && bytes@
                == self.objects()[(self.kind(), id@)],
            r == Err::<Vec<u8>, BackendError>(BackendError::NotFound)
                ==> !self.objects().contains_key((self.kind(), id@)),
    ;

    /// Searches the objects of the kind for each of `prefixes`, a beginning
    /// of the lowercase hexadecimal form of an identifier. Where nothing is
    /// searched for, the search succeeds with no answer.
    fn find_ids(&self, prefixes: &[&str]) -> (r: Result<Vec<Find>, BackendError>)
        ensures
            spec_search_each(&self.backend(), self.kind(), prefixes@, r),
            prefixes@.len() == 0 ==> (r matches Ok(found) && found@.len() == 0),
            r matches Ok(found) ==> found@.len() == prefixes@.len() && forall|i: int|
                0 <= i < prefixes@.len() ==> spec_found(
                    #[trigger] found@[i],
                    self.objects(),
                    self.kind(),
                    prefixes@[i].spec_bytes(),
                ),
    ;

    /// Searches the objects of the kind for `prefix`.
    fn find_id(&self, prefix: &str) -> (r: Result<Find, BackendError>)
        ensures
            spec_search(&self.backend(), self.kind(), prefix.spec_bytes(), r),
            r matches Ok(found) ==> spec_found(
                found,
                self.objects(),
                self.kind(),
                prefix.spec_bytes(),
            ),
    ;
}

/// Read access to the objects of a kind that is also read in parts.
pub trait GenericReadExt: GenericRead {
    /// The `len` bytes of the object that start at `offset`.
    fn read_at(&self, id: &Id, offset: u32, len: usize) -> (r: Result<Vec<u8>, BackendError>)
        ensures
            call_ensures(
                <Self::Backend as BackendRead>::read_at,
                (&self.backend(), self.kind(), id, offset, len),
                r,
            ),
            r matches Ok(bytes) ==> self.objects().contains_key((self.kind(), id@)) && offset + len
                <= self.objects()[(self.kind(), id@)].len() && bytes@ == self.objects()[(
                self.kind(),
                id@,
            )].subrange(offset as int, offset + len),
            r == Err::<Vec<u8>, BackendError>(BackendError::NotFound)
                ==> !self.objects().contains_key((self.kind(), id@)),
    ;
}

/// The configuration of a backend, for reading.
pub struct ConfigRead<'a, B> {
    backend: &'a B,
}

/// The objects of one kind of a backend, for reading.
pub struct KindRead<'a, B> {
    backend: &'a B,
    kind: ObjectKind,
}

/// The packs of a backend, for reading.
pub struct PackRead<'a, B> {
    backend: &'a B,
}

impl<'a, B: BackendRead> ConfigRead<'a, B> {
    /// The backend that is read.
    pub closed spec fn spec_backend(&self) -> B {
        *self.backend
    }
}

impl<'a, B: BackendRead> KindRead<'a, B> {
    /// The backend that is read.
    pub closed spec fn spec_backend(&self) -> B {
        *self.backend
    }
}

impl<'a, B: BackendRead> PackRead<'a, B> {
    /// The backend that is read.
    pub closed spec fn spec_backend(&self) -> B {
        *self.backend
    }
}

/// Each operation is the backend's own, on the configuration: what it
/// returns is what the backend returns.
impl<'a, B: BackendRead> GenericReadDid for ConfigRead<'a, B> {
    type Backend = B;

    open spec fn backend(&self) -> B {
        self.spec_backend()
    }

    open spec fn objects(&self) -> Objects {
        self.spec_backend().objects()
    }

    open spec fn kind(&self) -> ObjectKind {
        ObjectKind::Config
    }

    fn contains(&self) -> (r: Result<(), BackendError>) {
        self.backend.contains(ObjectKind::Config, &Id::zero())
    }

    fn meta(&self) -> (r: Result<ObjectMetadata, BackendError>) {
        self.backend.meta(ObjectKind::Config, &Id::zero())
    }

    /// Returns what the backend's `read_all` returns, and leaves in `buf`
    /// what it leaves there.
    fn read_all(&self, buf: &mut Vec<u8>) -> (r: Result<usize, BackendError>)
        ensures
            exists|m: &mut Vec<u8>| #[trigger]
                call_ensures(
                    B::read_all,
                    (&self.spec_backend(), ObjectKind::Config, &Id::spec_zero(), m),
                    r,
                ) && *m == *old(buf) && *final(m) == *final(buf),
    {
        assert(self.spec_backend() == *self.backend);
        self.backend.read_all(ObjectKind::Config, &Id::zero(), buf)
    }

    /// Hands the backend's `read_all` an empty buffer and returns what it
    /// left there, or the error that it gave.
    fn read_to_end(&self) -> (r: Result<Vec<u8>, BackendError>)
        ensures
            exists|m: &mut Vec<u8>, n: Result<usize, BackendError>| #[trigger]
                call_ensures(
                    B::read_all,
                    (&self.spec_backend(), ObjectKind::Config, &Id::spec_zero(), m),
                    n,
                ) && m@.len() == 0 && match n {
                    Ok(_) => r matches Ok(bytes) && bytes@ == final(m)@,
                    Err(e) => r == Err::<Vec<u8>, BackendError>(e),
                },
    {
        assert(self.spec_backend() == *self.backend);
        read_to_end(self.backend, ObjectKind::Config, &Id::zero())
    }
}

/// Each operation is the backend's own, on the kind of the handle: what it
/// returns is what the backend returns.
impl<'a, B: BackendRead> GenericRead for KindRead<'a, B> {
    type Backend = B;

    open spec fn backend(&self) -> B {
        self.spec_backend()
    }

    open spec fn objects(&self) -> Objects {
        self.spec_backend().objects()
    }

    closed spec fn kind(&self) -> ObjectKind {
        self.kind
    }

    fn contains(&self, id: &Id) -> (r: Result<(), BackendError>) {
        self.backend.contains(self.kind, id)
    }

    fn iter(&self) -> (r: Result<Vec<Id>, BackendError>) {
        self.backend.iter(self.kind)
    }

    fn meta(&self, id: &Id) -> (r: Result<ObjectMetadata, BackendError>) {
        self.backend.meta(self.kind, id)
    }

    /// Returns what the backend's `read_all` returns, and leaves in `buf`
    /// what it leaves there.
    fn read_all(&self, id: &Id, buf: &mut Vec<u8>) -> (r: Result<usize, BackendError>)
        ensures
            exists|m: &mut Vec<u8>| #[trigger]
                call_ensures(
                    B::read_all,
                    (&self.spec_backend(), self.kind(), id, m),
                    r,
                ) && *m == *old(buf) && *final(m) == *final(buf),
    {
        assert(self.spec_backend() == *self.backend);
        self.backend.read_all(self.kind, id, buf)
    }

    /// Hands the backend's `read_all` an empty buffer and returns what it
    /// left there, or the error that it gave.
    fn read_to_end(&self, id: &Id) -> (r: Result<Vec<u8>, BackendError>)
        ensures
            exists|m: &mut Vec<u8>, n: Result<usize, BackendError>| #[trigger]
                call_ensures(
                    B::read_all,
                    (&self.spec_backend(), self.kind(), id, m),
                    n,
                ) && m@.len() == 0 && match n {
                    Ok(_) => r matches Ok(bytes) && bytes@ == final(m)@,
                    Err(e) => r == Err::<Vec<u8>, BackendError>(e),
                },
    {
        assert(self.spec_backend() == *self.backend);
        read_to_end(self.backend, self.kind, id)
    }

    fn find_ids(&self, prefixes: &[&str]) -> (r: Result<Vec<Find>, BackendError>) {
        find_ids(self.backend, self.kind, prefixes)
    }

    fn find_id(&self, prefix: &str) -> (r: Result<Find, BackendError>) {
        find_id(self.backend, self.kind, prefix)
    }
}

/// Each operation is the backend's own, on the packs: what it returns is
/// what the backend returns.
impl<'a, B: BackendRead> GenericRead for PackRead<'a, B> {
    type Backend = B;

    open spec fn backend(&self) -> B {
        self.spec_backend()
    }

    open spec fn objects(&self) -> Objects {
        self.spec_backend().objects()
    }

    open spec fn kind(&self) -> ObjectKind {
        ObjectKind::Pack
    }

    fn contains(&self, id: &Id) -> (r: Result<(), BackendError>) {
        self.backend.contains(ObjectKind::Pack, id)
    }

    fn iter(&self) -> (r: Result<Vec<Id>, BackendError>) {
        self.backend.iter(ObjectKind::Pack)
    }

    fn meta(&self, id: &Id) -> (r: Result<ObjectMetadata, BackendError>) {
        self.backend.meta(ObjectKind::Pack, id)
    }

    /// Returns what the backend's `read_all` returns, and leaves in `buf`
    /// what it leaves there.
    fn read_all(&self, id: &Id, buf: &mut Vec<u8>) -> (r: Result<usize, BackendError>)
        ensures
            exists|m: &mut Vec<u8>| #[trigger]
                call_ensures(
                    B::read_all,
                    (&self.spec_backend(), ObjectKind::Pack, id, m),
                    r,
                ) && *m == *old(buf) && *final(m) == *final(buf),
    {
        assert(self.spec_backend() == *self.backend);
        self.backend.read_all(ObjectKind::Pack, id, buf)
    }

    /// Hands the backend's `read_all` an empty buffer and returns what it
    /// left there, or the error that it gave.
    fn read_to_end(&self, id: &Id) -> (r: Result<Vec<u8>, BackendError>)
        ensures
            exists|m: &mut Vec<u8>, n: Result<usize, BackendError>| #[trigger]
                call_ensures(
                    B::read_all,
                    (&self.spec_backend(), ObjectKind::Pack, id, m),
                    n,
                ) && m@.len() == 0 && match n {
                    Ok(_) => r matches Ok(bytes) && bytes@ == final(m)@,
                    Err(e) => r == Err::<Vec<u8>, BackendError>(e),
                },
    {
        assert(self.spec_backend() == *self.backend);
        read_to_end(self.backend, ObjectKind::Pack, id)
    }

    fn find_ids(&self, prefixes: &[&str]) -> (r: Result<Vec<Find>, BackendError>) {
        find_ids(self.backend, ObjectKind::Pack, prefixes)
    }

    fn find_id(&self, prefix: &str) -> (r: Result<Find, BackendError>) {
        find_id(self.backend, ObjectKind::Pack, prefix)
    }
}

impl<'a, B: BackendRead> GenericReadExt for PackRead<'a, B> {
    fn read_at(&self, id: &Id, offset: u32, len: usize) -> (r: Result<Vec<u8>, BackendError>) {
        self.backend.read_at(ObjectKind::Pack, id, offset, len)
    }
}

impl<B: BackendWrite> TypedBackend<B> {
    /// A typed backend for reading and writing.
    pub fn new(backend: B) -> (r: Self)
        ensures
            r.spec_backend() == backend,
    {
        Self(backend)
    }
}

impl<B: BackendRead> TypedBackend<B> {
    /// The backend inside.
    pub closed spec fn spec_backend(&self) -> B {
        self.0
    }

    /// A typed backend for reading.
    pub fn read_only(backend: B) -> (r: Self)
        ensures
            r.spec_backend() == backend,
    {
        Self(backend)
    }

    /// The backend inside.
    pub fn into_inner(self) -> (r: B)
        ensures
            r == self.spec_backend(),
    {
        self.0
    }

    pub fn config(&self) -> (r: ConfigRead<'_, B>)
        ensures
            r.spec_backend() == self.spec_backend(),
            r.kind() == ObjectKind::Config,
    {
        ConfigRead { backend: &self.0 }
    }

    pub fn index(&self) -> (r: KindRead<'_, B>)
        ensures
            r.spec_backend() == self.spec_backend(),
            r.kind() == ObjectKind::Index,
    {
        KindRead { backend: &self.0, kind: ObjectKind::Index }
    }

    pub fn key(&self) -> (r: KindRead<'_, B>)
        ensures
            r.spec_backend() == self.spec_backend(),
            r.kind() == ObjectKind::Key,
    {
        KindRead { backend: &self.0, kind: ObjectKind::Key }
    }

    pub fn snapshot(&self) -> (r: KindRead<'_, B>)
        ensures
            r.spec_backend() == self.spec_backend(),
            r.kind() == ObjectKind::Snapshot,
    {
        KindRead { backend: &self.0, kind: ObjectKind::Snapshot }
    }

    pub fn pack(&self) -> (r: PackRead<'_, B>)
        ensures
            r.spec_backend() == self.spec_backend(),
            r.kind() == ObjectKind::Pack,
    {
        PackRead { backend: &self.0 }
    }

    pub fn lock(&self) -> (r: KindRead<'_, B>)
        ensures
            r.spec_backend() == self.spec_backend(),
            r.kind() == ObjectKind::Lock,
    {
        KindRead { backend: &self.0, kind: ObjectKind::Lock }
    }
}

/// The kinds of which a backend holds many objects, each under its own
/// identifier.
#[derive(Debug, Clone, Copy, PartialEq, Eq, Hash, Structural)]
pub enum DirectoryKind {
    Index,
    Key,
    Snapshot,
    Pack,
    Lock,
}

impl DirectoryKind {
    pub open spec fn spec_kind(self) -> ObjectKind {
        match self {
            DirectoryKind::Index => ObjectKind::Index,
            DirectoryKind::Key => ObjectKind::Key,
            DirectoryKind::Snapshot => ObjectKind::Snapshot,
            DirectoryKind::Pack => ObjectKind::Pack,
            DirectoryKind::Lock => ObjectKind::Lock,
        }
    }

    /// The object kind that this is.
    pub fn kind(self) -> (r: ObjectKind)
        ensures
            r == self.spec_kind(),
            r != ObjectKind::Config,
    {
        match self {
            DirectoryKind::Index => ObjectKind::Index,
            DirectoryKind::Key => ObjectKind::Key,
            DirectoryKind::Snapshot => ObjectKind::Snapshot,
            DirectoryKind::Pack => ObjectKind::Pack,
            DirectoryKind::Lock => ObjectKind::Lock,
        }
    }
}

/// Write access to the one object of a kind that holds one object.
pub trait GenericWriteDid {
    /// The objects of the backend.
    spec fn stored(&self) -> Objects;

    /// Removes the configuration. Fails with `NotFound` only where none is
    /// stored.
    fn remove_config(&mut self) -> (r: Result<(), BackendError>)
        ensures
            r is Ok ==> final(self).stored() == old(self).stored().remove(
                (ObjectKind::Config, Id::spec_zero()@),
            ),
            r is Err ==> final(self).stored() == old(self).stored(),
            r == Err::<(), BackendError>(BackendError::NotFound) ==> !old(
                self,
            ).stored().contains_key((ObjectKind::Config, Id::spec_zero()@)),
    ;

    /// Stores `buf` as the configuration.
    fn write_config(&mut self, buf: &[u8]) -> (r: Result<(), BackendError>)
        ensures
            r is Ok ==> final(self).stored() == old(self).stored().insert(
                (ObjectKind::Config, Id::spec_zero()@),
                buf@,
            ),
            r is Err ==> final(self).stored() == old(self).stored(),
    ;
}

/// Write access to the objects of the kinds that hold many.
pub trait GenericWrite {
    /// The objects of the backend.
    spec fn held(&self) -> Objects;

    /// Removes the object. Fails with `NotFound` only where it is not
    /// stored.
    fn remove(&mut self, kind: DirectoryKind, id: &Id) -> (r: Result<(), BackendError>)
        ensures
            r is Ok ==> final(self).held() == old(self).held().remove((kind.spec_kind(), id@)),
            r is Err ==> final(self).held() == old(self).held(),
            r == Err::<(), BackendError>(BackendError::NotFound) ==> !old(self).held().contains_key(
                (kind.spec_kind(), id@),
            ),
    ;

    /// Stores `buf` as the object.
    fn write_all(&mut self, kind: DirectoryKind, id: &Id, buf: &[u8]) -> (r: Result<
        (),
        BackendError,
    >)
        ensures
            r is Ok ==> final(self).held() == old(self).held().insert(
                (kind.spec_kind(), id@),
                buf@,
            ),
            r is Err ==> final(self).held() == old(self).held(),
    ;
}

/// Each operation is the backend's own, on the configuration: it returns
/// what the backend returns and leaves the backend as that operation
/// leaves it.
impl<B: BackendWrite> GenericWriteDid for TypedBackend<B> {
    open spec fn stored(&self) -> Objects {
        self.spec_backend().objects()
    }

    /// The backend's `remove`, on the configuration.
    fn remove_config(&mut self) -> (r: Result<(), BackendError>)
        ensures
            exists|m: &mut B| #[trigger]
                call_ensures(B::remove, (m, ObjectKind::Config, &Id::spec_zero()), r) && *m == old(
                    self,
                ).spec_backend() && *final(m) == final(self).spec_backend(),
    {
        self.0.remove(ObjectKind::Config, &Id::zero())
    }

    /// The backend's `write_all`, on the configuration.
    fn write_config(&mut self, buf: &[u8]) -> (r: Result<(), BackendError>)
        ensures
            exists|m: &mut B| #[trigger]
                call_ensures(B::write_all, (m, ObjectKind::Config, &Id::spec_zero(), buf), r) && *m == old(
                    self,
                ).spec_backend() && *final(m) == final(self).spec_backend(),
    {
        self.0.write_all(ObjectKind::Config, &Id::zero(), buf)
    }
}

/// Each operation is the backend's own, on the kind that is named: it
/// returns what the backend returns and leaves the backend as that
/// operation leaves it.
impl<B: BackendWrite> GenericWrite for TypedBackend<B> {
    open spec fn held(&self) -> Objects {
        self.spec_backend().objects()
    }

    /// The backend's `remove`, on the kind that `kind` is.
    fn remove(&mut self, kind: DirectoryKind, id: &Id) -> (r: Result<(), BackendError>)
        ensures
            exists|m: &mut B| #[trigger]
                call_ensures(B::remove, (m, kind.spec_kind(), id), r) && *m == old(
                    self,
                ).spec_backend() && *final(m) == final(self).spec_backend(),
    {
        self.0.remove(kind.kind(), id)
    }

    /// The backend's `write_all`, on the kind that `kind` is.
    fn write_all(&mut self, kind: DirectoryKind, id: &Id, buf: &[u8]) -> (r: Result<
        (),
        BackendError,
    >)
        ensures
            exists|m: &mut B| #[trigger]
                call_ensures(B::write_all, (m, kind.spec_kind(), id, buf), r) && *m == old(
                    self,
                ).spec_backend() && *final(m) == final(self).spec_backend(),
    {
        self.0.write_all(kind.kind(), id, buf)
    }
}

} // verus!
