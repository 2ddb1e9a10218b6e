//! Access to the objects of a repository, kind by kind. A locked session
//! reads a kind only where its lock is shared or exclusive on the kind, and
//! writes only where it is exclusive; what the lock does not cover is
//! refused with `AccessDenied` before the backend is touched.

use vstd::prelude::*;
use vstd::string::StringSliceAdditionalSpecFns;
use crate::backend::ext::{find_id, find_ids, spec_found, spec_search, spec_search_each, Find};
use crate::backend::{spec_lists, BackendError, BackendRead, BackendWrite};
use crate::id::Id;
use crate::obj::config::Config;
use crate::obj::key::{EncryptOptions, EncryptedKey, Key, KeyError};
use crate::process::encrypt::EncryptionView;
use crate::obj::lock::{Lock, LockAccess};
use crate::obj::{ObjectKind, RepoObject};
use crate::process::format::FieldView;
use crate::process::pipeline::PipelineError;
use crate::repo::{
    load, read_wrapped, spec_from_backend, spec_key_error, spec_stored_fields, spec_unwraps, store, store_key, DecryptedRepo,
    LockedRepo, RepoError,
};

verus! {

/// Reading the configuration.
pub trait ConfigRead {
    fn config_exists(&self) -> Result<(), RepoError>;

    fn config_read(&self) -> Result<Config, RepoError>;
}

/// Writing the configuration.
pub trait ConfigUpdate {
    fn config_write(&mut self, config: &Config) -> Result<(), RepoError>;
}

/// Reading the keys.
pub trait KeyRead {
    fn key_exists(&self, id: &Id) -> Result<(), RepoError>;

    fn keys(&self) -> Result<Vec<Id>, RepoError>;

    fn key_read(&self, id: &Id, user_key: &[u8]) -> Result<Key, RepoError>;

    fn keys_find(&self, ids: &[&str]) -> Result<Vec<Find>, RepoError>;

    fn key_find(&self, id: &str) -> Result<Find, RepoError>;
}

/// Adding keys.
pub trait KeyUpdate {
    fn key_add(&mut self, opts: EncryptOptions, password: &[u8]) -> Result<Id, RepoError>;
}

/// Reading the indices.
pub trait IndexRead {
    fn index_exists(&self, id: &Id) -> Result<(), RepoError>;

    fn indices(&self) -> Result<Vec<Id>, RepoError>;

    fn index_read(&self, id: &Id) -> Result<Key, RepoError>;

    fn indices_find(&self, ids: &[&str]) -> Result<Vec<Find>, RepoError>;

    fn index_find(&self, id: &str) -> Result<Find, RepoError>;
}

/// Reading the locks.
pub trait LockRead {
    fn lock_exists(&self, id: &Id) -> Result<(), RepoError>;

    fn locks(&self) -> Result<Vec<Id>, RepoError>;

    fn lock_read(&self, id: &Id) -> Result<Lock, RepoError>;

    fn locks_find(&self, ids: &[&str]) -> Result<Vec<Find>, RepoError>;

    fn lock_find(&self, id: &str) -> Result<Find, RepoError>;
}

/// Whether `r` is what asking `backend` for the object gives: the answer
/// of its `contains`, an error as the error of the backend.
pub open spec fn spec_exists_in<B: BackendRead>(
    backend: &B,
    kind: ObjectKind,
    id: &Id,
    r: Result<(), RepoError>,
) -> bool {
    exists|a: Result<(), BackendError>| #[trigger]
        call_ensures(B::contains, (backend, kind, id), a) && r == spec_from_backend(a)
}

/// Whether `r` is what listing the objects of `kind` in `backend` gives:
/// the answer of its `iter`, an error as the error of the backend.
pub open spec fn spec_list_in<B: BackendRead>(
    backend: &B,
    kind: ObjectKind,
    r: Result<Vec<Id>, RepoError>,
) -> bool {
    exists|a: Result<Vec<Id>, BackendError>| #[trigger]
        call_ensures(B::iter, (backend, kind), a) && r == spec_from_backend(a)
}

/// Whether `r` is what the search for each of `prefixes` gives, an error
/// as the error of the backend.
pub open spec fn spec_find_all_in<B: BackendRead>(
    backend: &B,
    kind: ObjectKind,
    prefixes: Seq<&str>,
    r: Result<Vec<Find>, RepoError>,
) -> bool {
    exists|a: Result<Vec<Find>, BackendError>| #[trigger]
        spec_search_each(backend, kind, prefixes, a) && r == spec_from_backend(a)
}

/// Whether `r` is what the search for `prefix` gives, an error as the
/// error of the backend.
pub open spec fn spec_find_in_kind<B: BackendRead>(
    backend: &B,
    kind: ObjectKind,
    prefix: Seq<u8>,
    r: Result<Find, RepoError>,
) -> bool {
    exists|a: Result<Find, BackendError>| #[trigger]
        spec_search(backend, kind, prefix, a) && r == spec_from_backend(a)
}

/// Whether an object of `kind` is stored under `id` in `backend`.
pub fn exists_in<B: BackendRead>(backend: &B, kind: ObjectKind, id: &Id) -> (r: Result<
    (),
    RepoError,
>)
    ensures
        spec_exists_in(backend, kind, id, r),
        r is Ok ==> backend.objects().contains_key((kind, id@)),
        r matches Err(e) ==> e is Backend,
{
    match backend.contains(kind, id) {
        Ok(()) => Ok(()),
        Err(e) => Err(RepoError::Backend(e)),
    }
}

/// The identifiers of the objects of `kind` in `backend`.
pub fn list_in<B: BackendRead>(backend: &B, kind: ObjectKind) -> (r: Result<Vec<Id>, RepoError>)
    ensures
        spec_list_in(backend, kind, r),
        r matches Ok(ids) ==> spec_lists(ids@, backend.objects(), kind),
        r matches Err(e) ==> e is Backend,
{
    match backend.iter(kind) {
        Ok(ids) => Ok(ids),
        Err(e) => Err(RepoError::Backend(e)),
    }
}

/// Searches the objects of `kind` in `backend` for each of `prefixes`.
pub fn find_all_in<B: BackendRead>(backend: &B, kind: ObjectKind, prefixes: &[&str]) -> (r: Result<
    Vec<Find>,
    RepoError,
>)
    ensures
        spec_find_all_in(backend, kind, prefixes@, r),
        r matches Ok(found) ==> found@.len() == prefixes@.len() && forall|i: int|
            0 <= i < prefixes@.len() ==> spec_found(
                #[trigger] found@[i],
                backend.objects(),
                kind,
                prefixes@[i].spec_bytes(),
            ),
        r matches Err(e) ==> e is Backend,
{
    match find_ids(backend, kind, prefixes) {
        Ok(found) => Ok(found),
        Err(e) => Err(RepoError::Backend(e)),
    }
}

/// Searches the objects of `kind` in `backend` for `prefix`.
pub fn find_in_kind<B: BackendRead>(backend: &B, kind: ObjectKind, prefix: &str) -> (r: Result<
    Find,
    RepoError,
>)
    ensures
        spec_find_in_kind(backend, kind, prefix.spec_bytes(), r),
        r matches Ok(found) ==> spec_found(found, backend.objects(), kind, prefix.spec_bytes()),
        r matches Err(e) ==> e is Backend,
{
    match find_id(backend, kind, prefix) {
        Ok(found) => Ok(found),
        Err(e) => Err(RepoError::Backend(e)),
    }
}

impl<B: BackendWrite> LockedRepo<B> {
    /// The level that the lock of the session holds on `kind`.
    pub fn access(&self, kind: ObjectKind) -> (r: LockAccess)
        ensures
            r == self.spec_lock().state.spec_access(kind),
    {
        self.lock().state.access(kind)
    }

    /// Succeeds where the lock of the session lets the session read
    /// `kind`.
    pub fn require_read(&self, kind: ObjectKind) -> (r: Result<(), RepoError>)
        ensures
            r is Ok <==> self.spec_lock().state.spec_access(kind).spec_can_read(),
            r matches Err(e) ==> e == RepoError::AccessDenied,
    {
        if self.access(kind).can_read() {
            Ok(())
        } else {
            Err(RepoError::AccessDenied)
        }
    }

    /// Succeeds where the lock of the session lets the session write
    /// `kind`.
    pub fn require_write(&self, kind: ObjectKind) -> (r: Result<(), RepoError>)
        ensures
            r is Ok <==> self.spec_lock().state.spec_access(kind).spec_can_write(),
            r matches Err(e) ==> e == RepoError::AccessDenied,
    {
        if self.access(kind).can_write() {
            Ok(())
        } else {
            Err(RepoError::AccessDenied)
        }
    }
}

impl<B: BackendWrite> ConfigRead for LockedRepo<B> {
    fn config_exists(&self) -> (r: Result<(), RepoError>)
        ensures
            self.spec_lock().state.config.spec_can_read() ==> spec_exists_in(
                &self.spec_backend(),
                ObjectKind::Config,
                &Id::spec_zero(),
                r,
            ),
            r == Err::<(), RepoError>(RepoError::AccessDenied)
                <==> !self.spec_lock().state.config.spec_can_read(),
            r is Ok ==> self.objects().contains_key((ObjectKind::Config, Id::spec_zero()@)),
    {
        match self.require_read(ObjectKind::Config) {
            Ok(()) => exists_in(self.backend(), ObjectKind::Config, &Id::zero()),
            Err(e) => Err(e),
        }
    }

    fn config_read(&self) -> (r: Result<Config, RepoError>)
        ensures
            self.spec_lock().state.config.spec_can_read() ==> call_ensures(
                load::<B, Config>,
                (&self.spec_backend(), &self.spec_key(), ObjectKind::Config, &Id::spec_zero()),
                r,
            ),
            r == Err::<Config, RepoError>(RepoError::AccessDenied)
                <==> !self.spec_lock().state.config.spec_can_read(),
            r matches Ok(config) ==> self.objects().contains_key(
                (ObjectKind::Config, Id::spec_zero()@),
            ) && spec_stored_fields(
                self.spec_key(),
                self.objects()[(ObjectKind::Config, Id::spec_zero()@)],
            ) == Ok::<Seq<FieldView>, PipelineError>(config.spec_fields()),
    {
        match self.require_read(ObjectKind::Config) {
            Ok(()) => load(self.backend(), self.key(), ObjectKind::Config, &Id::zero()),
            Err(e) => Err(e),
        }
    }
}

impl<B: BackendWrite> ConfigUpdate for LockedRepo<B> {
    /// Writes the configuration. The algorithms must be those that the
    /// repository has: they never change.
    fn config_write(&mut self, config: &Config) -> (r: Result<(), RepoError>)
        ensures
            old(self).spec_lock().state.config.spec_can_write() && config.process == old(
                self,
            ).spec_config().process ==> exists|m: &mut B, key: Key| #[trigger]
                call_ensures(
                    store::<B, Config>,
                    (m, &config.process, &key, ObjectKind::Config, &Id::spec_zero(), config),
                    r,
                ) && key.spec_key_fields() == old(self).spec_key().spec_key_fields() && *m == old(
                    self,
                ).spec_backend() && *final(m) == final(self).spec_backend(),
            final(self).spec_key() == old(self).spec_key(),
            final(self).spec_lock() == old(self).spec_lock(),
            final(self).spec_lock_id() == old(self).spec_lock_id(),
            r == Err::<(), RepoError>(RepoError::AccessDenied) <==> !old(
                self,
            ).spec_lock().state.config.spec_can_write(),
            r == Err::<(), RepoError>(RepoError::ProcessChanged) <==> old(
                self,
            ).spec_lock().state.config.spec_can_write() && config.process != old(
                self,
            ).spec_config().process,
            r is Ok ==> final(self).objects() == old(self).objects().insert(
                (ObjectKind::Config, Id::spec_zero()@),
                final(self).objects()[(ObjectKind::Config, Id::spec_zero()@)],
            ) && spec_stored_fields(
                old(self).spec_key(),
                final(self).objects()[(ObjectKind::Config, Id::spec_zero()@)],
            ) == Ok::<Seq<FieldView>, PipelineError>(config.spec_fields()),
            r is Err ==> final(self).objects() == old(self).objects(),
    {
        match self.require_write(ObjectKind::Config) {
            Ok(()) => {},
            Err(e) => {
                return Err(e);
            },
        }
        let process = self.config().process;
        if !(config.process == process) {
            return Err(RepoError::ProcessChanged);
        }
        let key = self.key().duplicate();
        proof {
            key.lemma_same_fields(&old(self).spec_key());
        }
        let r = store(self.backend_mut(), &process, &key, ObjectKind::Config, &Id::zero(), config);
        proof {
            crate::process::pipeline::lemma_backward_same_key(
                key,
                old(self).spec_key(),
                self.objects()[(ObjectKind::Config, Id::spec_zero()@)],
            );
        }
        r
    }
}

impl<B: BackendWrite> KeyRead for LockedRepo<B> {
    fn key_exists(&self, id: &Id) -> (r: Result<(), RepoError>)
        ensures
            self.spec_lock().state.key.spec_can_read() ==> spec_exists_in(
                &self.spec_backend(),
                ObjectKind::Key,
                id,
                r,
            ),
            r == Err::<(), RepoError>(RepoError::AccessDenied)
                <==> !self.spec_lock().state.key.spec_can_read(),
            r is Ok ==> self.objects().contains_key((ObjectKind::Key, id@)),
    {
        match self.require_read(ObjectKind::Key) {
            Ok(()) => exists_in(self.backend(), ObjectKind::Key, id),
            Err(e) => Err(e),
        }
    }

    fn keys(&self) -> (r: Result<Vec<Id>, RepoError>)
        ensures
            self.spec_lock().state.key.spec_can_read() ==> spec_list_in(
                &self.spec_backend(),
                ObjectKind::Key,
                r,
            ),
            r == Err::<Vec<Id>, RepoError>(RepoError::AccessDenied)
                <==> !self.spec_lock().state.key.spec_can_read(),
            r matches Ok(ids) ==> spec_lists(ids@, self.objects(), ObjectKind::Key),
    {
        match self.require_read(ObjectKind::Key) {
            Ok(()) => list_in(self.backend(), ObjectKind::Key),
            Err(e) => Err(e),
        }
    }

    /// Unwraps the key stored under `id` with `user_key`.
    fn key_read(&self, id: &Id, user_key: &[u8]) -> (r: Result<Key, RepoError>)
        ensures
            self.spec_lock().state.key.spec_can_read() ==> exists|
                read: Result<EncryptedKey, RepoError>,
            | #[trigger]
                call_ensures(read_wrapped::<B>, (&self.spec_backend(), id), read) && match read {
                    Err(e) => r == Err::<Key, RepoError>(e),
                    Ok(wrapped) => match wrapped.spec_unwrap(user_key@) {
                        Ok(fs) => r matches Ok(key) && key.spec_key_fields() == fs,
                        Err(e) => r == Err::<Key, RepoError>(spec_key_error(e)),
                    },
                },
            r == Err::<Key, RepoError>(RepoError::AccessDenied)
                <==> !self.spec_lock().state.key.spec_can_read(),
            r matches Ok(key) ==> spec_unwraps(self.objects(), *id, user_key@) == Ok::<
                Seq<FieldView>,
                KeyError,
            >(key.spec_key_fields()),
    {
        match self.require_read(ObjectKind::Key) {
            Ok(()) => {},
            Err(e) => {
                return Err(e);
            },
        }
        match read_wrapped(self.backend(), id) {
            Ok(wrapped) => {
                proof {
                    wrapped.lemma_unwrap_fields();
                }
                match wrapped.decrypt(user_key) {
                    Ok(key) => Ok(key),
                    Err(KeyError::PasswordMismatch) => Err(RepoError::PasswordMismatch),
                    Err(e) => Err(RepoError::Key(e)),
                }
            },
            Err(e) => Err(e),
        }
    }

    fn keys_find(&self, ids: &[&str]) -> (r: Result<Vec<Find>, RepoError>)
        ensures
            self.spec_lock().state.key.spec_can_read() ==> spec_find_all_in(
                &self.spec_backend(),
                ObjectKind::Key,
                ids@,
                r,
            ),
            r == Err::<Vec<Find>, RepoError>(RepoError::AccessDenied)
                <==> !self.spec_lock().state.key.spec_can_read(),
            r matches Ok(found) ==> found@.len() == ids@.len() && forall|i: int|
                0 <= i < ids@.len() ==> spec_found(
                    #[trigger] found@[i],
                    self.objects(),
                    ObjectKind::Key,
                    ids@[i].spec_bytes(),
                ),
    {
        match self.require_read(ObjectKind::Key) {
            Ok(()) => find_all_in(self.backend(), ObjectKind::Key, ids),
            Err(e) => Err(e),
        }
    }

    fn key_find(&self, id: &str) -> (r: Result<Find, RepoError>)
        ensures
            self.spec_lock().state.key.spec_can_read() ==> spec_find_in_kind(
                &self.spec_backend(),
                ObjectKind::Key,
                id.spec_bytes(),
                r,
            ),
            r == Err::<Find, RepoError>(RepoError::AccessDenied)
                <==> !self.spec_lock().state.key.spec_can_read(),
            r matches Ok(found) ==> spec_found(
                found,
                self.objects(),
                ObjectKind::Key,
                id.spec_bytes(),
            ),
    {
        match self.require_read(ObjectKind::Key) {
            Ok(()) => find_in_kind(self.backend(), ObjectKind::Key, id),
            Err(e) => Err(e),
        }
    }
}

impl<B: BackendWrite> KeyUpdate for LockedRepo<B> {
    /// Adds a key: the master key, wrapped for `password`. The keys that
    /// are there stay, and unwrap as before.
    fn key_add(&mut self, opts: EncryptOptions, password: &[u8]) -> (r: Result<Id, RepoError>)
        ensures
            old(self).spec_lock().state.key.spec_can_write() ==> (r matches Err(
                RepoError::Key(_),
            )) || exists|m: &mut B, key: Key, wrapped: EncryptedKey| #[trigger]
                call_ensures(
                    store_key::<B>,
                    (m, &key, &wrapped, &old(self).spec_config().process),
                    r,
                ) && wrapped.spec_unwrap(password@) == Ok::<Seq<FieldView>, KeyError>(
                    old(self).spec_key().spec_key_fields(),
                ) && *m == old(self).spec_backend() && *final(m) == final(self).spec_backend(),
            r matches Err(RepoError::Key(e)) ==> exists|salt: Seq<u8>, encryption: EncryptionView| #[trigger]
                crate::obj::key::spec_wrap(
                    old(self).spec_key().spec_key_fields(),
                    opts,
                    encryption,
                    salt,
                    password@,
                ) == Err::<Seq<u8>, KeyError>(e),
            final(self).spec_key() == old(self).spec_key(),
            final(self).spec_lock() == old(self).spec_lock(),
            final(self).spec_lock_id() == old(self).spec_lock_id(),
            r == Err::<Id, RepoError>(RepoError::AccessDenied) <==> !old(
                self,
            ).spec_lock().state.key.spec_can_write(),
            r matches Ok(id) ==> final(self).objects() == old(self).objects().insert(
                (ObjectKind::Key, id@),
                final(self).objects()[(ObjectKind::Key, id@)],
            ) && spec_unwraps(final(self).objects(), id, password@) == Ok::<
                Seq<FieldView>,
                KeyError,
            >(old(self).spec_key().spec_key_fields()),
            r is Err ==> final(self).objects() == old(self).objects(),
    {
        match self.require_write(ObjectKind::Key) {
            Ok(()) => {},
            Err(e) => {
                return Err(e);
            },
        }
        let process = self.config().process;
        let key = self.key().duplicate();
        let wrapped = match key.encrypt(opts, process.encryption.create(), password) {
            Ok(wrapped) => wrapped,
            Err(e) => {
                return Err(RepoError::Key(e));
            },
        };
        store_key(self.backend_mut(), &key, &wrapped, &process)
    }
}

impl<B: BackendWrite> IndexRead for LockedRepo<B> {
    fn index_exists(&self, id: &Id) -> (r: Result<(), RepoError>)
        ensures
            self.spec_lock().state.index.spec_can_read() ==> spec_exists_in(
                &self.spec_backend(),
                ObjectKind::Index,
                id,
                r,
            ),
            r == Err::<(), RepoError>(RepoError::AccessDenied)
                <==> !self.spec_lock().state.index.spec_can_read(),
            r is Ok ==> self.objects().contains_key((ObjectKind::Index, id@)),
    {
        match self.require_read(ObjectKind::Index) {
            Ok(()) => exists_in(self.backend(), ObjectKind::Index, id),
            Err(e) => Err(e),
        }
    }

    fn indices(&self) -> (r: Result<Vec<Id>, RepoError>)
        ensures
            self.spec_lock().state.index.spec_can_read() ==> spec_list_in(
                &self.spec_backend(),
                ObjectKind::Index,
                r,
            ),
            r == Err::<Vec<Id>, RepoError>(RepoError::AccessDenied)
                <==> !self.spec_lock().state.index.spec_can_read(),
            r matches Ok(ids) ==> spec_lists(ids@, self.objects(), ObjectKind::Index),
    {
        match self.require_read(ObjectKind::Index) {
            Ok(()) => list_in(self.backend(), ObjectKind::Index),
            Err(e) => Err(e),
        }
    }

    /// Reads the record stored under `id` among the indices: what
    /// [`load`] gives for it.
    fn index_read(&self, id: &Id) -> (r: Result<Key, RepoError>)
        ensures
            r == Err::<Key, RepoError>(RepoError::AccessDenied)
                <==> !self.spec_lock().state.index.spec_can_read(),
            self.spec_lock().state.index.spec_can_read() ==> call_ensures(
                load::<B, Key>,
                (&self.spec_backend(), &self.spec_key(), ObjectKind::Index, id),
                r,
            ),
            r matches Ok(record) ==> self.objects().contains_key((ObjectKind::Index, id@))
                && spec_stored_fields(self.spec_key(), self.objects()[(ObjectKind::Index, id@)])
                == Ok::<Seq<FieldView>, PipelineError>(record.spec_fields()),
    {
        match self.require_read(ObjectKind::Index) {
            Ok(()) => load(self.backend(), self.key(), ObjectKind::Index, id),
            Err(e) => Err(e),
        }
    }

    fn indices_find(&self, ids: &[&str]) -> (r: Result<Vec<Find>, RepoError>)
        ensures
            self.spec_lock().state.index.spec_can_read() ==> spec_find_all_in(
                &self.spec_backend(),
                ObjectKind::Index,
                ids@,
                r,
            ),
            r == Err::<Vec<Find>, RepoError>(RepoError::AccessDenied)
                <==> !self.spec_lock().state.index.spec_can_read(),
            r matches Ok(found) ==> found@.len() == ids@.len() && forall|i: int|
                0 <= i < ids@.len() ==> spec_found(
                    #[trigger] found@[i],
                    self.objects(),
                    ObjectKind::Index,
                    ids@[i].spec_bytes(),
                ),
    {
        match self.require_read(ObjectKind::Index) {
            Ok(()) => find_all_in(self.backend(), ObjectKind::Index, ids),
            Err(e) => Err(e),
        }
    }

    fn index_find(&self, id: &str) -> (r: Result<Find, RepoError>)
        ensures
            self.spec_lock().state.index.spec_can_read() ==> spec_find_in_kind(
                &self.spec_backend(),
                ObjectKind::Index,
                id.spec_bytes(),
                r,
            ),
            r == Err::<Find, RepoError>(RepoError::AccessDenied)
                <==> !self.spec_lock().state.index.spec_can_read(),
            r matches Ok(found) ==> spec_found(
                found,
                self.objects(),
                ObjectKind::Index,
                id.spec_bytes(),
            ),
    {
        match self.require_read(ObjectKind::Index) {
            Ok(()) => find_in_kind(self.backend(), ObjectKind::Index, id),
            Err(e) => Err(e),
        }
    }
}

impl<B: BackendWrite> LockRead for DecryptedRepo<B> {
    fn lock_exists(&self, id: &Id) -> (r: Result<(), RepoError>)
        ensures
            spec_exists_in(&self.spec_backend(), ObjectKind::Lock, id, r),
            r is Ok ==> self.objects().contains_key((ObjectKind::Lock, id@)),
            r matches Err(e) ==> e is Backend,
    {
        exists_in(self.backend(), ObjectKind::Lock, id)
    }

    fn locks(&self) -> (r: Result<Vec<Id>, RepoError>)
        ensures
            spec_list_in(&self.spec_backend(), ObjectKind::Lock, r),
            r matches Ok(ids) ==> spec_lists(ids@, self.objects(), ObjectKind::Lock),
            r matches Err(e) ==> e is Backend,
    {
        list_in(self.backend(), ObjectKind::Lock)
    }

    /// Reads the lock stored under `id`.
    fn lock_read(&self, id: &Id) -> (r: Result<Lock, RepoError>)
        ensures
            call_ensures(
                load::<B, Lock>,
                (&self.spec_backend(), &self.spec_key(), ObjectKind::Lock, id),
                r,
            ),
            r matches Ok(lock) ==> self.objects().contains_key((ObjectKind::Lock, id@))
                && spec_stored_fields(self.spec_key(), self.objects()[(ObjectKind::Lock, id@)])
                == Ok::<Seq<FieldView>, PipelineError>(lock.spec_fields()),
            r matches Err(e) ==> e is Backend || e is Pipeline || e is Format,
    {
        load(self.backend(), self.key(), ObjectKind::Lock, id)
    }

    fn locks_find(&self, ids: &[&str]) -> (r: Result<Vec<Find>, RepoError>)
        ensures
            spec_find_all_in(&self.spec_backend(), ObjectKind::Lock, ids@, r),
            r matches Ok(found) ==> found@.len() == ids@.len() && forall|i: int|
                0 <= i < ids@.len() ==> spec_found(
                    #[trigger] found@[i],
                    self.objects(),
                    ObjectKind::Lock,
                    ids@[i].spec_bytes(),
                ),
            r matches Err(e) ==> e is Backend,
    {
        find_all_in(self.backend(), ObjectKind::Lock, ids)
    }

    fn lock_find(&self, id: &str) -> (r: Result<Find, RepoError>)
        ensures
            spec_find_in_kind(&self.spec_backend(), ObjectKind::Lock, id.spec_bytes(), r),
            r matches Ok(found) ==> spec_found(
                found,
                self.objects(),
                ObjectKind::Lock,
                id.spec_bytes(),
            ),
            r matches Err(e) ==> e is Backend,
    {
        find_in_kind(self.backend(), ObjectKind::Lock, id)
    }
}

} // verus!
