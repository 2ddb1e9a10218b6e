//! A repository over a backend, and the states it passes through: opened,
//! then decrypted with a key, then locked for an access.

use vstd::prelude::*;
use vstd::string::StringSliceAdditionalSpecFns;
use crate::backend::ext::{find_id, read_to_end, spec_found, spec_search, Find};
use crate::backend::{spec_lists, BackendError, BackendRead, BackendWrite, Objects};
use crate::id::Id;
use crate::obj::chunk::write_record;
use crate::obj::config::Config;
use crate::obj::key::{
    spec_is_encrypted_key_fields, spec_unencrypted_fields, spec_unwrap_fields, EncryptOptions,
    EncryptedKey, Key, KeyError, KeyMeta,
};
use crate::obj::lock::{Lock, LockAccess, LockMeta, LockState};
use crate::obj::{ObjectKind, RepoObject};
use crate::process::encrypt::Encryption;
use crate::process::format::{
    spec_parse_record, spec_record, FieldView, FormatError, FormatFailure, Formatter,
};
use crate::process::pipeline::{
    process, spec_backward, spec_forward_error, spec_read, unprocess, PipelineError,
};
use crate::process::ProcessOptions;

pub mod access;
pub mod law;
pub mod marker;
pub mod unlock;

verus! {

/// Why a repository could not do what it was asked.
#[derive(Debug, Clone, Copy, PartialEq, Eq, Hash, Structural)]
pub enum RepoError {
    /// The backend failed.
    Backend(BackendError),
    /// A stored object does not come out of the pipeline.
    Pipeline(PipelineError),
    /// A stored object is no record of the type that was asked for.
    Format(FormatError),
    /// A key could not be wrapped or unwrapped.
    Key(KeyError),
    /// The store holds a repository already.
    AlreadyExists,
    /// A lock that is held does not admit the access that was asked for.
    /// The lock that asked for it is gone again.
    LockConflict,
    /// The password unwraps none of the keys.
    PasswordMismatch,
    /// The lock of the session does not cover what was asked.
    AccessDenied,
    /// The algorithms of a repository cannot be changed.
    ProcessChanged,
}

/// The fields of the record that comes out of the pipeline for the stored
/// bytes, or the error of the first step that fails.
pub open spec fn spec_stored_fields(key: Key, stored: Seq<u8>) -> Result<
    Seq<FieldView>,
    PipelineError,
> {
    match spec_backward(key, stored) {
        Err(e) => Err(e),
        Ok(bytes) => match spec_read(bytes) {
            Err(e) => Err(PipelineError::Format(e)),
            Ok(fs) => Ok(fs),
        },
    }
}

/// What the backend answered, an error of it as an error of the
/// repository.
pub open spec fn spec_from_backend<T>(answer: Result<T, BackendError>) -> Result<T, RepoError> {
    match answer {
        Ok(value) => Ok(value),
        Err(e) => Err(RepoError::Backend(e)),
    }
}

/// What reading a record makes of the backend's answer to reading the
/// object whole: an error of the backend is handed on; the bytes go
/// through the backward path, whose error is handed on; the fields that
/// come out are the record, or of the wrong shape.
pub open spec fn spec_loaded<V: RepoObject>(
    key: Key,
    answer: Result<Vec<u8>, BackendError>,
    r: Result<V, RepoError>,
) -> bool {
    match answer {
        Err(e) => r == Err::<V, RepoError>(RepoError::Backend(e)),
        Ok(stored) => match spec_stored_fields(key, stored@) {
            Err(e) => r == Err::<V, RepoError>(RepoError::Pipeline(e)),
            Ok(fs) => if V::spec_is_fields(fs) {
                r matches Ok(record) && record.spec_fields() == fs
            } else {
                r == Err::<V, RepoError>(
                    RepoError::Format(FormatError::Failed(FormatFailure::WrongShape)),
                )
            },
        },
    }
}

/// Reads the record stored under `kind` and `id`: takes the bytes through
/// the backward path and reads the fields of the record. The backend is
/// asked once, for the object whole, and the result follows its answer.
pub fn load<B: BackendRead, V: RepoObject>(backend: &B, key: &Key, kind: ObjectKind, id: &Id) -> (r:
    Result<V, RepoError>)
    ensures
        exists|answer: Result<Vec<u8>, BackendError>| #[trigger]
            call_ensures(read_to_end::<B>, (backend, kind, id), answer) && spec_loaded(
                *key,
                answer,
                r,
            ),
        r matches Ok(record) ==> backend.objects().contains_key((kind, id@)) && spec_stored_fields(
            *key,
            backend.objects()[(kind, id@)],
        ) == Ok::<Seq<FieldView>, PipelineError>(record.spec_fields()),
        r matches Err(RepoError::Pipeline(e)) ==> backend.objects().contains_key((kind, id@))
            && spec_stored_fields(*key, backend.objects()[(kind, id@)]) == Err::<
            Seq<FieldView>,
            PipelineError,
        >(e),
        r matches Err(RepoError::Format(_)) ==> backend.objects().contains_key((kind, id@)) && (
        spec_stored_fields(*key, backend.objects()[(kind, id@)]) matches Ok(fs)
            && !V::spec_is_fields(fs)),
        r matches Err(e) ==> e is Backend || e is Pipeline || e is Format,
{
    let answer = read_to_end(backend, kind, id);
    let stored = match answer {
        Ok(stored) => stored,
        Err(e) => {
            return Err(RepoError::Backend(e));
        },
    };
    let fields = match unprocess(Formatter::Cbor, key, stored.as_slice()) {
        Ok(fields) => fields,
        Err(e) => {
            return Err(RepoError::Pipeline(e));
        },
    };
    match V::from_fields(&fields) {
        Some(record) => Ok(record),
        None => Err(RepoError::Format(FormatError::Failed(FormatFailure::WrongShape))),
    }
}

/// Stores `record` under `kind` and `id`: writes the record and takes it
/// through the forward path. What is stored, [`load`] reads back. Where the
/// forward path fails on the record the backend is not asked, and that is
/// the error. Otherwise the backend is asked once, to write bytes that come
/// out of the backward path as the record, and the result is its answer.
pub fn store<B: BackendWrite, V: RepoObject>(
    backend: &mut B,
    opts: &ProcessOptions,
    key: &Key,
    kind: ObjectKind,
    id: &Id,
    record: &V,
) -> (r: Result<(), RepoError>)
    ensures
        final(backend).is_created() == old(backend).is_created(),
        r is Ok ==> final(backend).objects() == old(backend).objects().insert(
            (kind, id@),
            final(backend).objects()[(kind, id@)],
        ) && spec_stored_fields(*key, final(backend).objects()[(kind, id@)]) == Ok::<
            Seq<FieldView>,
            PipelineError,
        >(record.spec_fields()),
        r is Err ==> final(backend).objects() == old(backend).objects(),
        r matches Err(e) ==> e is Backend || e is Pipeline,
        match spec_forward_error(*opts, spec_record(record.spec_fields())) {
            Some(e) => r == Err::<(), RepoError>(RepoError::Pipeline(e)),
            None => exists|m: &mut B, stored: &[u8], answer: Result<(), BackendError>| #[trigger]
                call_ensures(B::write_all, (m, kind, id, stored), answer) && *m == *old(backend)
                    && *final(m) == *final(backend) && spec_stored_fields(*key, stored@) == Ok::<
                    Seq<FieldView>,
                    PipelineError,
                >(record.spec_fields()) && r == spec_from_backend(answer),
        },
{
    let fields = record.to_fields();
    let bytes = write_record(&fields);
    let stored = match process(opts, key, bytes.as_slice()) {
        Ok(stored) => stored,
        Err(e) => {
            return Err(RepoError::Pipeline(e));
        },
    };
    proof {
        crate::process::format::lemma_record_roundtrip(record.spec_fields());
    }
    match backend.write_all(kind, id, stored.as_slice()) {
        Ok(()) => {
            assert(backend.objects()[(kind, id@)] == stored@);
            Ok(())
        },
        Err(e) => Err(RepoError::Backend(e)),
    }
}

/// What reading a wrapped key makes of the backend's answer to reading
/// the object whole: an error of the backend is handed on; bytes that are
/// no record are malformed; the fields of the record are the wrapped key,
/// or of the wrong shape.
pub open spec fn spec_read_wrapped(
    answer: Result<Vec<u8>, BackendError>,
    r: Result<EncryptedKey, RepoError>,
) -> bool {
    match answer {
        Err(e) => r == Err::<EncryptedKey, RepoError>(RepoError::Backend(e)),
        Ok(stored) => match spec_parse_record(stored@) {
            None => r == Err::<EncryptedKey, RepoError>(
                RepoError::Format(FormatError::Failed(FormatFailure::Malformed)),
            ),
            Some(fs) => if spec_is_encrypted_key_fields(fs) {
                r matches Ok(wrapped) && wrapped.spec_fields() == fs
            } else {
                r == Err::<EncryptedKey, RepoError>(
                    RepoError::Format(FormatError::Failed(FormatFailure::WrongShape)),
                )
            },
        },
    }
}

/// Reads the wrapped key stored under `id` in `backend`. The backend is
/// asked once, for the object whole, and the result follows its answer.
pub fn read_wrapped<B: BackendRead>(backend: &B, id: &Id) -> (r: Result<EncryptedKey, RepoError>)
    ensures
        exists|answer: Result<Vec<u8>, BackendError>| #[trigger]
            call_ensures(read_to_end::<B>, (backend, ObjectKind::Key, id), answer)
                && spec_read_wrapped(answer, r),
        r matches Ok(wrapped) ==> backend.objects().contains_key((ObjectKind::Key, id@))
            && spec_parse_record(backend.objects()[(ObjectKind::Key, id@)]) == Some(
            wrapped.spec_fields(),
        ) && spec_is_encrypted_key_fields(wrapped.spec_fields()),
        r matches Err(RepoError::Format(_)) ==> backend.objects().contains_key(
            (ObjectKind::Key, id@),
        ) && !(spec_parse_record(backend.objects()[(ObjectKind::Key, id@)]) matches Some(fs)
            && spec_is_encrypted_key_fields(fs)),
        r matches Err(e) ==> e is Backend || e is Format,
{
    let answer = read_to_end(backend, ObjectKind::Key, id);
    let stored = match answer {
        Ok(stored) => stored,
        Err(e) => {
            return Err(RepoError::Backend(e));
        },
    };
    let fields = match Formatter::Cbor.parse(stored.as_slice()) {
        Ok(fields) => fields,
        Err(e) => {
            return Err(RepoError::Format(e));
        },
    };
    match EncryptedKey::from_fields(&fields) {
        Some(wrapped) => {
            proof {
                wrapped.lemma_fields_valid();
            }
            Ok(wrapped)
        },
        None => Err(RepoError::Format(FormatError::Failed(FormatFailure::WrongShape))),
    }
}

/// A repository whose layout has been checked. Nothing can be read from it
/// but its keys.
#[derive(Debug)]
pub struct Repo<B> {
    backend: B,
}

/// A repository with its master key.
#[derive(Debug)]
pub struct DecryptedRepo<B> {
    backend: B,
    key: Key,
    key_id: Id,
}

/// Whether the object stored under `id` is a wrapped key that `password`
/// unwraps, and to what.
pub open spec fn spec_unwraps(objects: Objects, id: Id, password: Seq<u8>) -> Result<
    Seq<FieldView>,
    KeyError,
> {
    if !objects.contains_key((ObjectKind::Key, id@)) {
        Err(KeyError::Malformed)
    } else {
        match spec_parse_record(objects[(ObjectKind::Key, id@)]) {
            None => Err(KeyError::Malformed),
            Some(fs) => if spec_is_encrypted_key_fields(fs) {
                spec_unwrap_fields(fs, password)
            } else {
                Err(KeyError::Malformed)
            },
        }
    }
}

/// Whether the object stored under `id` is a key that is not wrapped, and
/// which.
pub open spec fn spec_reads_unencrypted(objects: Objects, id: Id) -> Result<
    Seq<FieldView>,
    KeyError,
> {
    if !objects.contains_key((ObjectKind::Key, id@)) {
        Err(KeyError::Malformed)
    } else {
        match spec_parse_record(objects[(ObjectKind::Key, id@)]) {
            None => Err(KeyError::Malformed),
            Some(fs) => if spec_is_encrypted_key_fields(fs) {
                spec_unencrypted_fields(fs)
            } else {
                Err(KeyError::Malformed)
            },
        }
    }
}

/// The error of a repository for the error of a key.
pub fn key_error(e: KeyError) -> (r: RepoError)
    ensures
        r == spec_key_error(e),
{
    match e {
        KeyError::PasswordMismatch => RepoError::PasswordMismatch,
        other => RepoError::Key(other),
    }
}

/// The error of the repository for an error of the key.
pub open spec fn spec_key_error(e: KeyError) -> RepoError {
    if e == KeyError::PasswordMismatch {
        RepoError::PasswordMismatch
    } else {
        RepoError::Key(e)
    }
}

/// What taking a key makes of what was read of it, where `unwrap` says
/// what a wrapped key gives: an error of the backend is handed on; what is
/// no wrapped key is malformed; else the key is what `unwrap` gives, or its
/// error.
pub open spec fn spec_taken(
    read: Result<EncryptedKey, RepoError>,
    unwrap: spec_fn(EncryptedKey) -> Result<Seq<FieldView>, KeyError>,
    r: Result<Seq<FieldView>, RepoError>,
) -> bool {
    match read {
        Err(RepoError::Backend(b)) => r == Err::<Seq<FieldView>, RepoError>(RepoError::Backend(b)),
        Err(_) => r == Err::<Seq<FieldView>, RepoError>(RepoError::Key(KeyError::Malformed)),
        Ok(wrapped) => match unwrap(wrapped) {
            Ok(fs) => r == Ok::<Seq<FieldView>, RepoError>(fs),
            Err(e) => r == Err::<Seq<FieldView>, RepoError>(spec_key_error(e)),
        },
    }
}

impl<B: BackendWrite> Repo<B> {
    /// What a session that was asked for holds: the fields of its key, or
    /// the error.
    pub open spec fn spec_outcome(r: Result<DecryptedRepo<B>, (Self, RepoError)>) -> Result<
        Seq<FieldView>,
        RepoError,
    > {
        match r {
            Ok(repo) => Ok(repo.spec_key().spec_key_fields()),
            Err((_, e)) => Err(e),
        }
    }

    /// The backend of the repository.
    pub closed spec fn spec_backend(&self) -> B {
        self.backend
    }

    /// The objects of the repository.
    pub open spec fn objects(&self) -> Objects {
        self.spec_backend().objects()
    }

    /// Opens the repository in `backend`. The backend is asked once, by
    /// `verify`, whether the layout of a repository is in place: where it
    /// says so the repository is opened, and where it fails, its error is
    /// the result.
    pub fn open(backend: B) -> (r: Result<Self, RepoError>)
        ensures
            exists|v: Result<(), BackendError>| #[trigger]
                call_ensures(B::verify, (&backend,), v) && match v {
                    Ok(_) => r matches Ok(repo) && repo.spec_backend() == backend,
                    Err(e) => r == Err::<Self, RepoError>(RepoError::Backend(e)),
                },
            r matches Ok(repo) ==> repo.spec_backend() == backend && backend.is_created(),
            r matches Err(e) ==> e is Backend,
    {
        match backend.verify() {
            Ok(()) => Ok(Self { backend }),
            Err(e) => Err(RepoError::Backend(e)),
        }
    }

    /// Makes a repository in `backend`, with a fresh master key that
    /// `password` unwraps, and returns it with the identifier of the key.
    /// Where it fails the backend is handed back with the error.
    ///
    /// The layout is laid out; the key is wrapped and stored under the
    /// identifier of its record; the configuration goes through the
    /// pipeline and is stored under the identifier of all zeros.
    pub fn init(
        backend: B,
        process: ProcessOptions,
        meta: KeyMeta,
        opts: EncryptOptions,
        password: &[u8],
    ) -> (r: Result<(Self, Id), (B, RepoError)>)
        ensures
            exists|key: Key, config: Config, encryption: Encryption| #[trigger]
                call_ensures(
                    Self::init_with,
                    (backend, key, config, opts, encryption, password),
                    r,
                ) && config.process == process,
            r matches Ok((repo, key_id)) ==> repo.spec_backend().is_created() && spec_initialized(
                repo.objects(),
                key_id,
                password@,
                process,
            ),
            r matches Err((back, e)) ==> (e == RepoError::AlreadyExists || e is Backend
                || e is Pipeline || e is Key) && (e == RepoError::AlreadyExists
                ==> backend.is_created() && back == backend) && (e is Key ==> back == backend),
    {
        let key = Key::random(meta);
        let config = Config::fresh(process);
        Self::init_with(backend, key, config, opts, process.encryption.create(), password)
    }

    /// Makes a repository in `backend` with the given master key and
    /// configuration; `encryption` is the cipher that wraps the key.
    ///
    /// The backend is asked first whether a repository is there: where it
    /// says so, and only there, the error is `AlreadyExists`. An error of
    /// the backend is the answer of the step that failed: laying out the
    /// layout, storing the key, or storing the configuration. Where it
    /// fails the backend is handed back with the error.
    #[verifier::rlimit(50)]
    pub fn init_with(
        backend: B,
        key: Key,
        config: Config,
        opts: EncryptOptions,
        encryption: Encryption,
        password: &[u8],
    ) -> (r: Result<(Self, Id), (B, RepoError)>)
        ensures
            r matches Ok((repo, key_id)) ==> repo.spec_backend().is_created() && spec_initialized(
                repo.objects(),
                key_id,
                password@,
                config.process,
            ) && spec_unwraps(repo.objects(), key_id, password@) == Ok::<Seq<FieldView>, KeyError>(
                key.spec_key_fields(),
            ) && key_id@ == crate::process::identify::Identifier::Blake3.spec_identify(
                key.spec_bytes().spec_identify_key(),
                repo.objects()[(ObjectKind::Key, key_id@)],
            ) && repo.objects() == backend.objects().insert(
                (ObjectKind::Key, key_id@),
                repo.objects()[(ObjectKind::Key, key_id@)],
            ).insert(
                (ObjectKind::Config, Id::spec_zero()@),
                repo.objects()[(ObjectKind::Config, Id::spec_zero()@)],
            ) && spec_stored_fields(key, repo.objects()[(ObjectKind::Config, Id::spec_zero()@)])
                == Ok::<Seq<FieldView>, PipelineError>(config.spec_fields()),
            r matches Err((back, e)) ==> (e == RepoError::AlreadyExists || e is Backend
                || e is Pipeline || e is Key) && (e == RepoError::AlreadyExists
                ==> backend.is_created() && back == backend) && (e is Key ==> back == backend),
            exists|found: Result<(), BackendError>| #[trigger]
                call_ensures(B::verify, (&backend,), found) && (found is Ok <==> (
                r matches Err((_, e)) && e == RepoError::AlreadyExists)),
            r matches Err((_, RepoError::Backend(e))) ==> (exists|m: &mut B| #[trigger]
                call_ensures(B::create, (m,), Err::<(), BackendError>(e)) && *m == backend) || (
            exists|m: &mut B, wrapped: EncryptedKey| #[trigger]
                call_ensures(
                    store_key::<B>,
                    (m, &key, &wrapped, &config.process),
                    Err::<Id, RepoError>(RepoError::Backend(e)),
                )) || (exists|m: &mut B| #[trigger]
                call_ensures(
                    store::<B, Config>,
                    (m, &config.process, &key, ObjectKind::Config, &Id::spec_zero(), &config),
                    Err::<(), RepoError>(RepoError::Backend(e)),
                )),
    {
        let mut backend = backend;
        let found = backend.verify();
        if found.is_ok() {
            return Err((backend, RepoError::AlreadyExists));
        }
        let wrapped = match key.encrypt(opts, encryption, password) {
            Ok(wrapped) => wrapped,
            Err(e) => {
                return Err((backend, key_error(e)));
            },
        };
        match backend.create() {
            Ok(()) => {},
            Err(e) => {
                return Err((backend, RepoError::Backend(e)));
            },
        }
        let key_id = match store_key(&mut backend, &key, &wrapped, &config.process) {
            Ok(key_id) => key_id,
            Err(e) => {
                return Err((backend, e));
            },
        };
        let ghost with_key = backend.objects();
        match store(&mut backend, &config.process, &key, ObjectKind::Config, &Id::zero(), &config) {
            Ok(()) => {},
            Err(e) => {
                return Err((backend, e));
            },
        }
        proof {
            lemma_initialized(with_key, backend.objects(), key, key_id, config, password@);
        }
        Ok((Self { backend }, key_id))
    }

    /// Reads the wrapped key stored under `key_id`: what [`read_wrapped`]
    /// gives for the backend and the identifier.
    pub fn get_key(&self, key_id: Id) -> (r: Result<EncryptedKey, RepoError>)
        ensures
            call_ensures(read_wrapped::<B>, (&self.spec_backend(), &key_id), r),
            r matches Ok(wrapped) ==> self.objects().contains_key((ObjectKind::Key, key_id@))
                && spec_parse_record(self.objects()[(ObjectKind::Key, key_id@)]) == Some(
                wrapped.spec_fields(),
            ) && spec_is_encrypted_key_fields(wrapped.spec_fields()),
            r matches Err(RepoError::Format(_)) ==> spec_unwraps(self.objects(), key_id, Seq::empty())
                == Err::<Seq<FieldView>, KeyError>(KeyError::Malformed)
                && self.objects().contains_key((ObjectKind::Key, key_id@)),
            r matches Err(e) ==> e is Backend || e is Format,
    {
        read_wrapped(&self.backend, &key_id)
    }

    /// The identifiers of the keys of the repository: what the backend's
    /// `iter` answers.
    pub fn keys(&self) -> (r: Result<Vec<Id>, RepoError>)
        ensures
            exists|a: Result<Vec<Id>, BackendError>| #[trigger]
                call_ensures(B::iter, (&self.spec_backend(), ObjectKind::Key), a) && r
                    == spec_from_backend(a),
            r matches Ok(ids) ==> spec_lists(ids@, self.objects(), ObjectKind::Key),
            r matches Err(e) ==> e is Backend,
    {
        match self.backend.iter(ObjectKind::Key) {
            Ok(ids) => Ok(ids),
            Err(e) => Err(RepoError::Backend(e)),
        }
    }

    /// Searches the keys for the beginning `hex` of an identifier.
    pub fn find_key_id(&self, hex: &str) -> (r: Result<Find, RepoError>)
        ensures
            exists|a: Result<Find, BackendError>| #[trigger]
                spec_search(&self.spec_backend(), ObjectKind::Key, hex.spec_bytes(), a) && r
                    == spec_from_backend(a),
            r matches Ok(found) ==> spec_found(
                found,
                self.objects(),
                ObjectKind::Key,
                hex.spec_bytes(),
            ),
            r matches Err(e) ==> e is Backend,
    {
        let answer = find_id(&self.backend, ObjectKind::Key, hex);
        assert(spec_search(&self.spec_backend(), ObjectKind::Key, hex.spec_bytes(), answer));
        match answer {
            Ok(found) => Ok(found),
            Err(e) => Err(RepoError::Backend(e)),
        }
    }

    /// Takes the key stored under `key_id` as it is: for a repository made
    /// without a password and without encryption. The key is read once,
    /// and the result follows what was read.
    pub fn try_unencrypted(self, key_id: Id) -> (r: Result<DecryptedRepo<B>, (Self, RepoError)>)
        ensures
            exists|read: Result<EncryptedKey, RepoError>| #[trigger]
                call_ensures(read_wrapped::<B>, (&self.spec_backend(), &key_id), read)
                    && spec_taken(
                    read,
                    |wrapped: EncryptedKey| wrapped.spec_unencrypted(),
                    Self::spec_outcome(r),
                ),
            match r {
                Ok(repo) => repo.spec_backend() == self.spec_backend() && repo.spec_key_id()
                    == key_id && spec_reads_unencrypted(self.objects(), key_id) == Ok::<
                    Seq<FieldView>,
                    KeyError,
                >(repo.spec_key().spec_key_fields()),
                Err((repo, e)) => repo.spec_backend() == self.spec_backend() && (e is Backend || (
                e == RepoError::Key(KeyError::Malformed) && spec_reads_unencrypted(
                    self.objects(),
                    key_id,
                ) is Err)),
            },
    {
        let read = read_wrapped(&self.backend, &key_id);
        let wrapped = match read {
            Ok(wrapped) => wrapped,
            Err(e) => {
                let e = match e {
                    RepoError::Backend(b) => RepoError::Backend(b),
                    _ => RepoError::Key(KeyError::Malformed),
                };
                return Err((self, e));
            },
        };
        proof {
            wrapped.lemma_unwrap_fields();
        }
        match wrapped.try_unencrypted() {
            Ok(key) => Ok(DecryptedRepo { backend: self.backend, key, key_id }),
            Err(e) => Err((self, RepoError::Key(e))),
        }
    }

    /// Unwraps the key stored under `key_id` with `password`. The key is
    /// read once, and the result follows what was read.
    pub fn decrypt(self, key_id: Id, password: &[u8]) -> (r: Result<
        DecryptedRepo<B>,
        (Self, RepoError),
    >)
        ensures
            exists|read: Result<EncryptedKey, RepoError>| #[trigger]
                call_ensures(read_wrapped::<B>, (&self.spec_backend(), &key_id), read)
                    && spec_taken(
                    read,
                    |wrapped: EncryptedKey| wrapped.spec_unwrap(password@),
                    Self::spec_outcome(r),
                ),
            match r {
                Ok(repo) => repo.spec_backend() == self.spec_backend() && repo.spec_key_id()
                    == key_id && spec_unwraps(self.objects(), key_id, password@) == Ok::<
                    Seq<FieldView>,
                    KeyError,
                >(repo.spec_key().spec_key_fields()),
                Err((repo, e)) => repo.spec_backend() == self.spec_backend() && (e is Backend || (
                spec_unwraps(self.objects(), key_id, password@) matches Err(ke) && e == (if ke
                    == KeyError::PasswordMismatch {
                    RepoError::PasswordMismatch
                } else {
                    RepoError::Key(ke)
                }))),
            },
    {
        let read = read_wrapped(&self.backend, &key_id);
        let wrapped = match read {
            Ok(wrapped) => wrapped,
            Err(e) => {
                let e = match e {
                    RepoError::Backend(b) => RepoError::Backend(b),
                    _ => RepoError::Key(KeyError::Malformed),
                };
                return Err((self, e));
            },
        };
        proof {
            wrapped.lemma_unwrap_fields();
        }
        match wrapped.decrypt(password) {
            Ok(key) => Ok(DecryptedRepo { backend: self.backend, key, key_id }),
            Err(e) => Err((self, key_error(e))),
        }
    }

    /// Whether [`Repo::decrypt`] has been tried on each of the first `n` of
    /// `ids`, and none gave the key or an error of the backend.
    pub open spec fn spec_in_vain(self, ids: Seq<Id>, n: int, password: &[u8]) -> bool {
        forall|j: int| 0 <= j < n ==> self.spec_no_key(#[trigger] ids[j], password)
    }

    /// Whether [`Repo::decrypt`] has been tried on the key under `id`, and
    /// gave neither the key nor an error of the backend.
    pub open spec fn spec_no_key(self, id: Id, password: &[u8]) -> bool {
        exists|tried: Result<DecryptedRepo<B>, (Self, RepoError)>| #[trigger]
            call_ensures(Self::decrypt, (self, id, password), tried) && (tried matches Err((_, e))
                && !(e is Backend))
    }

    /// Unwraps the first key that `password` unwraps. The keys are listed
    /// once, and tried in the order of the listing with [`Repo::decrypt`].
    /// The first that gives the key, or an error of the backend, decides.
    /// Fails with `PasswordMismatch` where all keys have been tried and
    /// the password unwraps none.
    #[verifier::rlimit(50)]
    pub fn unlock(self, password: &[u8]) -> (r: Result<DecryptedRepo<B>, (Self, RepoError)>)
        ensures
            exists|listed: Result<Vec<Id>, RepoError>| #[trigger]
                call_ensures(Self::keys, (&self,), listed) && match listed {
                    Err(e) => r matches Err((_, err)) && err == e,
                    Ok(ids) => exists|n: int|
                        0 <= n <= ids@.len() && #[trigger] self.spec_in_vain(ids@, n, password)
                            && if n == ids@.len() {
                            r matches Err((_, e)) && e == RepoError::PasswordMismatch
                        } else {
                            call_ensures(Self::decrypt, (self, ids@[n], password), r) && (r is Ok
                                || (r matches Err((_, e)) && e is Backend))
                        },
                },
            match r {
                Ok(repo) => repo.spec_backend() == self.spec_backend() && spec_unwraps(
                    self.objects(),
                    repo.spec_key_id(),
                    password@,
                ) == Ok::<Seq<FieldView>, KeyError>(repo.spec_key().spec_key_fields()),
                Err((repo, e)) => repo.spec_backend() == self.spec_backend() && (e is Backend || (e
                    == RepoError::PasswordMismatch && forall|id: Id| #[trigger]
                    self.objects().contains_key((ObjectKind::Key, id@)) ==> spec_unwraps(
                        self.objects(),
                        id,
                        password@,
                    ) is Err)),
            },
    {
        let listed = self.keys();
        let ids = match listed {
            Ok(ids) => ids,
            Err(e) => {
                return Err((self, e));
            },
        };
        let mut repo = self;
        let mut i: usize = 0;
        while i < ids.len()
            invariant
                i <= ids@.len(),
                repo == self,
                listed == Ok::<Vec<Id>, RepoError>(ids),
                call_ensures(Self::keys, (&self,), listed),
                spec_lists(ids@, self.objects(), ObjectKind::Key),
                self.spec_in_vain(ids@, i as int, password),
                forall|j: int|
                    0 <= j < i ==> spec_unwraps(self.objects(), #[trigger] ids@[j], password@) is Err,
            decreases ids@.len() - i,
        {
            let tried = repo.decrypt(ids[i], password);
            match tried {
                Ok(decrypted) => {
                    return Ok(decrypted);
                },
                Err((back, e)) => {
                    match e {
                        RepoError::Backend(b) => {
                            return Err((back, RepoError::Backend(b)));
                        },
                        _ => {},
                    }
                    repo = back;
                },
            }
            i = i + 1;
        }
        proof {
            assert forall|id: Id| #[trigger]
                self.objects().contains_key((ObjectKind::Key, id@)) implies spec_unwraps(
                self.objects(),
                id,
                password@,
            ) is Err by {
                let j = choose|j: int| 0 <= j < ids@.len() && (#[trigger] ids@[j])@ == id@;
                assert(spec_unwraps(self.objects(), ids@[j], password@) is Err);
            }
        }
        Err((repo, RepoError::PasswordMismatch))
    }

    /// The backend. A repository is in a valid state as long as nothing
    /// but the repository writes to its backend.
    pub fn backend(&self) -> (r: &B)
        ensures
            *r == self.spec_backend(),
    {
        &self.backend
    }

    /// The backend.
    pub fn into_inner(self) -> (r: B)
        ensures
            r == self.spec_backend(),
    {
        self.backend
    }
}

/// Stores a wrapped key as it is written, under the identifier of its
/// record. The backend is asked once, to write the record, and the result
/// follows its answer.
pub fn store_key<B: BackendWrite>(
    backend: &mut B,
    key: &Key,
    wrapped: &EncryptedKey,
    process: &ProcessOptions,
) -> (r: Result<Id, RepoError>)
    ensures
        final(backend).is_created() == old(backend).is_created(),
        r matches Ok(key_id) ==> final(backend).objects() == old(backend).objects().insert(
            (ObjectKind::Key, key_id@),
            spec_record(wrapped.spec_fields()),
        ) && key_id@ == crate::process::identify::Identifier::Blake3.spec_identify(
            key.spec_bytes().spec_identify_key(),
            spec_record(wrapped.spec_fields()),
        ),
        r matches Ok(key_id) ==> final(backend).objects().contains_key((ObjectKind::Key, key_id@))
            && forall|password: Seq<u8>| #[trigger]
            spec_unwraps(final(backend).objects(), key_id, password) == wrapped.spec_unwrap(
                password,
            ),
        r matches Err(e) ==> e is Backend && final(backend).objects() == old(backend).objects(),
        exists|m: &mut B, key_id: Id, stored: &[u8], answer: Result<(), BackendError>| #[trigger]
            call_ensures(B::write_all, (m, ObjectKind::Key, &key_id, stored), answer) && *m == *old(
                backend,
            ) && *final(m) == *final(backend) && stored@ == spec_record(wrapped.spec_fields())
                && key_id@ == crate::process::identify::Identifier::Blake3.spec_identify(
                key.spec_bytes().spec_identify_key(),
                stored@,
            ) && match answer {
                Ok(_) => r == Ok::<Id, RepoError>(key_id),
                Err(e) => r == Err::<Id, RepoError>(RepoError::Backend(e)),
            },
{
    let fields = wrapped.to_fields();
    let bytes = write_record(&fields);
    let key_id = process.identifier.create().identify(key, bytes.as_slice());
    proof {
        crate::process::format::lemma_record_roundtrip(wrapped.spec_fields());
        wrapped.lemma_fields_valid();
        wrapped.lemma_unwrap_fields();
    }
    match backend.write_all(ObjectKind::Key, &key_id, bytes.as_slice()) {
        Ok(()) => {
            assert(backend.objects()[(ObjectKind::Key, key_id@)] == bytes@);
            Ok(key_id)
        },
        Err(e) => Err(RepoError::Backend(e)),
    }
}

proof fn lemma_initialized(
    with_key: Objects,
    objects: Objects,
    key: Key,
    key_id: Id,
    config: Config,
    password: Seq<u8>,
)
    requires
        with_key.contains_key((ObjectKind::Key, key_id@)),
        spec_unwraps(with_key, key_id, password) == Ok::<Seq<FieldView>, KeyError>(
            key.spec_key_fields(),
        ),
        objects == with_key.insert(
            (ObjectKind::Config, Id::spec_zero()@),
            objects[(ObjectKind::Config, Id::spec_zero()@)],
        ),
        spec_stored_fields(key, objects[(ObjectKind::Config, Id::spec_zero()@)]) == Ok::<
            Seq<FieldView>,
            PipelineError,
        >(config.spec_fields()),
    ensures
        spec_unwraps(objects, key_id, password) == Ok::<Seq<FieldView>, KeyError>(
            key.spec_key_fields(),
        ),
        spec_has_config(objects, key, config.process),
        spec_initialized(objects, key_id, password, config.process),
{
    assert(objects[(ObjectKind::Key, key_id@)] == with_key[(ObjectKind::Key, key_id@)]);
    assert(objects.contains_key((ObjectKind::Config, Id::spec_zero()@)));
    assert(spec_has_config(objects, key, config.process));
}

/// Whether the configuration of the repository comes out of the pipeline
/// under `key` and names the algorithms `process`.
pub open spec fn spec_has_config(objects: Objects, key: Key, process: ProcessOptions) -> bool {
    &&& objects.contains_key((ObjectKind::Config, Id::spec_zero()@))
    &&& exists|config: Config|
        config.process == process && spec_stored_fields(
            key,
            objects[(ObjectKind::Config, Id::spec_zero()@)],
        ) == Ok::<Seq<FieldView>, PipelineError>(#[trigger] config.spec_fields())
}

/// Whether the objects are those of a repository that was just made: the
/// key under `key_id` is one that `password` unwraps, and under that key
/// the configuration comes out of the pipeline and names the algorithms
/// `process`.
pub open spec fn spec_initialized(
    objects: Objects,
    key_id: Id,
    password: Seq<u8>,
    process: ProcessOptions,
) -> bool {
    exists|key: Key|
        spec_unwraps(objects, key_id, password) == Ok::<Seq<FieldView>, KeyError>(
            #[trigger] key.spec_key_fields(),
        ) && spec_has_config(objects, key, process)
}

impl<B: BackendWrite> DecryptedRepo<B> {
    /// The backend of the repository.
    pub closed spec fn spec_backend(&self) -> B {
        self.backend
    }

    /// The master key.
    pub closed spec fn spec_key(&self) -> Key {
        self.key
    }

    /// The identifier of the wrapped key that the master key came from.
    pub closed spec fn spec_key_id(&self) -> Id {
        self.key_id
    }

    /// The objects of the repository.
    pub open spec fn objects(&self) -> Objects {
        self.spec_backend().objects()
    }

    pub fn key(&self) -> (r: &Key)
        ensures
            *r == self.spec_key(),
    {
        &self.key
    }

    pub fn key_id(&self) -> (r: &Id)
        ensures
            *r == self.spec_key_id(),
    {
        &self.key_id
    }

    /// The backend.
    pub fn backend(&self) -> (r: &B)
        ensures
            *r == self.spec_backend(),
    {
        &self.backend
    }

    /// The parts of the repository: the backend, the master key, and the
    /// identifier of its wrapped form.
    pub fn into_inner(self) -> (r: (B, Key, Id))
        ensures
            r.0 == self.spec_backend(),
            r.1 == self.spec_key(),
            r.2 == self.spec_key_id(),
    {
        (self.backend, self.key, self.key_id)
    }

    /// A repository of the given parts.
    pub(crate) fn from_parts(backend: B, key: Key, key_id: Id) -> (r: Self)
        ensures
            r.spec_backend() == backend,
            r.spec_key() == key,
            r.spec_key_id() == key_id,
    {
        Self { backend, key, key_id }
    }

    /// Reads the configuration: what [`load`] gives for the object under
    /// the identifier of all zeros.
    pub fn read_config(&self) -> (r: Result<Config, RepoError>)
        ensures
            call_ensures(
                load::<B, Config>,
                (&self.spec_backend(), &self.spec_key(), ObjectKind::Config, &Id::spec_zero()),
                r,
            ),
            r matches Ok(config) ==> self.objects().contains_key(
                (ObjectKind::Config, Id::spec_zero()@),
            ) && spec_stored_fields(
                self.spec_key(),
                self.objects()[(ObjectKind::Config, Id::spec_zero()@)],
            ) == Ok::<Seq<FieldView>, PipelineError>(config.spec_fields()),
            r matches Err(e) ==> e is Backend || e is Pipeline || e is Format,
    {
        load(&self.backend, &self.key, ObjectKind::Config, &Id::zero())
    }
}


/// The access level that a field stands for.
pub open spec fn spec_access_from(f: FieldView) -> LockAccess {
    if f == FieldView::Uint(0) {
        LockAccess::Idle
    } else if f == FieldView::Uint(1) {
        LockAccess::Shared
    } else {
        LockAccess::Exclusive
    }
}

/// The state of the lock whose record has the fields `fs`.
pub open spec fn spec_state_of(fs: Seq<FieldView>) -> LockState {
    LockState {
        config: spec_access_from(fs[8]),
        index: spec_access_from(fs[9]),
        key: spec_access_from(fs[10]),
        snapshot: spec_access_from(fs[11]),
        pack: spec_access_from(fs[12]),
    }
}

/// The state of the lock that is stored as `stored`; `None` where what is
/// stored does not come out of the pipeline under `key` as a lock.
pub open spec fn spec_lock_state(key: Key, stored: Seq<u8>) -> Option<LockState> {
    match spec_stored_fields(key, stored) {
        Err(_) => None,
        Ok(fs) => if crate::obj::lock::spec_is_lock_fields(fs) {
            Some(spec_state_of(fs))
        } else {
            None
        },
    }
}

/// The identifier under which a lock is stored: that of its record.
pub open spec fn spec_lock_id(key: Key, lock: Lock) -> Seq<u8> {
    crate::process::identify::Identifier::Blake3.spec_identify(
        key.spec_bytes().spec_identify_key(),
        spec_record(lock.spec_fields()),
    )
}

/// Whether every lock among `objects` but the one under `own` admits the
/// state `state` beside it.
pub open spec fn spec_admitted(objects: Objects, key: Key, own: Seq<u8>, state: LockState) -> bool {
    forall|id: Id| #[trigger]
        objects.contains_key((ObjectKind::Lock, id@)) && id@ != own ==> (spec_lock_state(
            key,
            objects[(ObjectKind::Lock, id@)],
        ) matches Some(held) && held.spec_compatible(state))
}

/// Whether a lock among `objects`, not the one under `own`, does not admit
/// the state `state` beside it.
pub open spec fn spec_conflicts(objects: Objects, key: Key, own: Seq<u8>, state: LockState) -> bool {
    exists|id: Id| #[trigger]
        objects.contains_key((ObjectKind::Lock, id@)) && id@ != own && (spec_lock_state(
            key,
            objects[(ObjectKind::Lock, id@)],
        ) matches Some(held) && !held.spec_compatible(state))
}

/// A repository with its master key and a lock that this session holds.
#[derive(Debug)]
pub struct LockedRepo<B> {
    backend: B,
    key: Key,
    key_id: Id,
    lock: Lock,
    lock_id: Id,
    config: Config,
}

/// The state that the record of a lock names is the state of the lock.
pub proof fn lemma_state_of_lock(lock: Lock)
    ensures
        spec_state_of(lock.spec_fields()) == lock.state,
{
    let fs = lock.spec_fields();
    assert(fs.len() == 13);
    assert(fs[8] == crate::obj::record::spec_access(lock.state.config));
    assert(fs[9] == crate::obj::record::spec_access(lock.state.index));
    assert(fs[10] == crate::obj::record::spec_access(lock.state.key));
    assert(fs[11] == crate::obj::record::spec_access(lock.state.snapshot));
    assert(fs[12] == crate::obj::record::spec_access(lock.state.pack));
}

/// Reads the state of the lock stored under `id`; `None` where what is
/// stored does not come out of the pipeline under `key` as a lock. The
/// backend is asked once, for the object whole, and only its error is an
/// error.
pub fn read_lock_state<B: BackendRead>(backend: &B, key: &Key, id: &Id) -> (r: Result<
    Option<LockState>,
    BackendError,
>)
    ensures
        exists|answer: Result<Vec<u8>, BackendError>| #[trigger]
            call_ensures(read_to_end::<B>, (backend, ObjectKind::Lock, id), answer) && match answer {
                Err(e) => r == Err::<Option<LockState>, BackendError>(e),
                Ok(stored) => r == Ok::<Option<LockState>, BackendError>(
                    spec_lock_state(*key, stored@),
                ),
            },
        r matches Ok(state) ==> backend.objects().contains_key((ObjectKind::Lock, id@)) && state
            == spec_lock_state(*key, backend.objects()[(ObjectKind::Lock, id@)]),
{
    let loaded: Result<Lock, RepoError> = load(backend, key, ObjectKind::Lock, id);
    match loaded {
        Ok(held) => {
            proof {
                held.lemma_fields_valid();
                lemma_state_of_lock(held);
            }
            Ok(Some(held.state))
        },
        Err(RepoError::Backend(e)) => Err(e),
        Err(_) => Ok(None),
    }
}

/// Whether `held` is what reading the locks listed in `ids` gave, place by
/// place: the state that [`read_lock_state`] answered, and nothing for the
/// lock under `own`, which is not read.
pub open spec fn spec_read_locks<B: BackendRead>(
    backend: &B,
    key: &Key,
    ids: Seq<Id>,
    own: &Id,
    held: Seq<(Id, Option<LockState>)>,
) -> bool {
    &&& held.len() == ids.len()
    &&& forall|i: int|
        0 <= i < ids.len() ==> (#[trigger] held[i]).0 == ids[i] && if ids[i]@ == own@ {
            held[i].1 is None
        } else {
            call_ensures(
                read_lock_state::<B>,
                (backend, key, &ids[i]),
                Ok::<Option<LockState>, BackendError>(held[i].1),
            )
        }
}

/// Reads the states of the locks listed in `ids`, but for the lock under
/// `own`. The first error of the backend ends the reading, and is the
/// result.
pub fn read_locks<B: BackendRead>(backend: &B, key: &Key, ids: &Vec<Id>, own: &Id) -> (r: Result<
    Vec<(Id, Option<LockState>)>,
    BackendError,
>)
    ensures
        r matches Ok(held) ==> spec_read_locks(backend, key, ids@, own, held@),
        r matches Err(e) ==> exists|i: int|
            0 <= i < ids@.len() && ids@[i]@ != own@ && #[trigger] call_ensures(
                read_lock_state::<B>,
                (backend, key, &ids@[i]),
                Err::<Option<LockState>, BackendError>(e),
            ),
{
    let mut held: Vec<(Id, Option<LockState>)> = Vec::new();
    let mut i: usize = 0;
    while i < ids.len()
        invariant
            i <= ids@.len(),
            spec_read_locks(backend, key, ids@.subrange(0, i as int), own, held@),
        decreases ids@.len() - i,
    {
        let id = ids[i];
        let ghost before = held@;
        if id == *own {
            held.push((id, None));
        } else {
            let answer = read_lock_state(backend, key, &id);
            match answer {
                Ok(state) => {
                    held.push((id, state));
                },
                Err(e) => {
                    return Err(e);
                },
            }
        }
        proof {
            let upto = ids@.subrange(0, i + 1);
            assert forall|j: int| 0 <= j < upto.len() implies (#[trigger] held@[j]).0 == upto[j]
                && if upto[j]@ == own@ {
                held@[j].1 is None
            } else {
                call_ensures(
                    read_lock_state::<B>,
                    (backend, key, &upto[j]),
                    Ok::<Option<LockState>, BackendError>(held@[j].1),
                )
            } by {
                if j < i {
                    assert(held@[j] == before[j]);
                    assert(upto[j] == ids@.subrange(0, i as int)[j]);
                }
            }
        }
        i = i + 1;
    }
    proof {
        assert(ids@.subrange(0, i as int) =~= ids@);
    }
    Ok(held)
}

/// Whether the lock at a place of a listing is no hindrance to a lock
/// under `own` that asks for `state`: it is that lock itself, or its state
/// has been read and admits `state` beside it.
pub open spec fn spec_lets_pass(entry: (Id, Option<LockState>), own: Seq<u8>, state: LockState) -> bool {
    entry.0@ == own || (entry.1 matches Some(held) && held.spec_compatible(state))
}

/// What the locks `held` decide on a lock under `own` that asks for
/// `state`: the first that is a hindrance decides. One whose state does
/// not admit `state` is a conflict; one whose state could not be read is
/// malformed.
pub open spec fn spec_decide(
    held: Seq<(Id, Option<LockState>)>,
    own: Seq<u8>,
    state: LockState,
) -> Result<(), RepoError>
    decreases held.len(),
{
    if held.len() == 0 {
        Ok(())
    } else if spec_lets_pass(held[0], own, state) {
        spec_decide(held.skip(1), own, state)
    } else if held[0].1 is Some {
        Err(RepoError::LockConflict)
    } else {
        Err(RepoError::Format(FormatError::Failed(FormatFailure::Malformed)))
    }
}

/// The decision is `Ok` exactly where no lock is a hindrance; a conflict
/// names a lock that does not admit the state.
pub proof fn lemma_decide(held: Seq<(Id, Option<LockState>)>, own: Seq<u8>, state: LockState)
    ensures
        spec_decide(held, own, state) is Ok <==> forall|i: int|
            0 <= i < held.len() ==> spec_lets_pass(#[trigger] held[i], own, state),
        spec_decide(held, own, state) matches Err(e) ==> e == RepoError::LockConflict || e
            == RepoError::Format(FormatError::Failed(FormatFailure::Malformed)),
        spec_decide(held, own, state) == Err::<(), RepoError>(RepoError::LockConflict)
            ==> exists|i: int|
            0 <= i < held.len() && (#[trigger] held[i]).0@ != own && (held[i].1 matches Some(h)
                && !h.spec_compatible(state)),
    decreases held.len(),
{
    if held.len() > 0 {
        let rest = held.skip(1);
        lemma_decide(rest, own, state);
        assert(forall|i: int| 0 <= i < rest.len() ==> rest[i] == held[i + 1]);
        if spec_lets_pass(held[0], own, state) {
            if spec_decide(rest, own, state) is Ok {
                assert forall|i: int| 0 <= i < held.len() implies spec_lets_pass(
                    #[trigger] held[i],
                    own,
                    state,
                ) by {
                    if i > 0 {
                        assert(rest[i - 1] == held[i]);
                    }
                }
            } else {
                if forall|i: int| 0 <= i < held.len() ==> spec_lets_pass(#[trigger] held[i], own, state) {
                    assert forall|i: int| 0 <= i < rest.len() implies spec_lets_pass(
                        #[trigger] rest[i],
                        own,
                        state,
                    ) by {
                        assert(rest[i] == held[i + 1]);
                    }
                }
            }
            if spec_decide(held, own, state) == Err::<(), RepoError>(RepoError::LockConflict) {
                let i = choose|i: int|
                    0 <= i < rest.len() && (#[trigger] rest[i]).0@ != own && (rest[i].1 matches Some(
                        h,
                    ) && !h.spec_compatible(state));
                assert(held[i + 1] == rest[i]);
            }
        } else {
            assert(!spec_lets_pass(held[0], own, state));
        }
    }
}

/// Decides on a lock under `own` that asks for `state`, beside the locks
/// `held`, each with its state as far as it could be read. The lock is
/// admitted exactly where every other lock has a state that admits it.
pub fn decide_lock(held: &Vec<(Id, Option<LockState>)>, own: &Id, state: &LockState) -> (r: Result<
    (),
    RepoError,
>)
    ensures
        r == spec_decide(held@, own@, *state),
        r is Ok <==> forall|i: int|
            0 <= i < held@.len() ==> ((#[trigger] held@[i]).0@ == own@ || (held@[i].1 matches Some(
                h,
            ) && h.spec_compatible(*state))),
        r matches Err(e) ==> e == RepoError::LockConflict || e is Format,
{
    proof {
        lemma_decide(held@, own@, *state);
        assert(held@.skip(0) =~= held@);
    }
    let mut i: usize = 0;
    while i < held.len()
        invariant
            i <= held@.len(),
            spec_decide(held@, own@, *state) == spec_decide(held@.skip(i as int), own@, *state),
        decreases held@.len() - i,
    {
        let ghost rest = held@.skip(i as int);
        proof {
            assert(rest[0] == held@[i as int]);
            assert(rest.skip(1) =~= held@.skip(i + 1));
        }
        if !(held[i].0 == *own) {
            match held[i].1 {
                Some(h) => {
                    if !h.compatible(state) {
                        return Err(RepoError::LockConflict);
                    }
                },
                None => {
                    return Err(RepoError::Format(FormatError::Failed(FormatFailure::Malformed)));
                },
            }
        }
        i = i + 1;
    }
    proof {
        assert(held@.skip(i as int) =~= Seq::<(Id, Option<LockState>)>::empty());
    }
    Ok(())
}

/// Where every lock of a listing of the locks is no hindrance, the state
/// is admitted.
proof fn lemma_all_pass<B: BackendRead>(
    backend: &B,
    key: &Key,
    own: &Id,
    state: LockState,
    ids: Seq<Id>,
    held: Seq<(Id, Option<LockState>)>,
)
    requires
        spec_lists(ids, backend.objects(), ObjectKind::Lock),
        spec_read_locks(backend, key, ids, own, held),
    ensures
        spec_decide(held, own@, state) is Ok ==> spec_admitted(
            backend.objects(),
            *key,
            own@,
            state,
        ),
        spec_decide(held, own@, state) == Err::<(), RepoError>(RepoError::LockConflict)
            ==> spec_conflicts(backend.objects(), *key, own@, state),
{
    let objects = backend.objects();
    lemma_decide(held, own@, state);
    if spec_decide(held, own@, state) is Ok {
        assert forall|id: Id| #[trigger]
            objects.contains_key((ObjectKind::Lock, id@)) && id@ != own@ implies (spec_lock_state(
            *key,
            objects[(ObjectKind::Lock, id@)],
        ) matches Some(h) && h.spec_compatible(state)) by {
            let j = choose|j: int| 0 <= j < ids.len() && (#[trigger] ids[j])@ == id@;
            assert(spec_lets_pass(held[j], own@, state));
            assert(held[j].0 == ids[j]);
        }
    }
    if spec_decide(held, own@, state) == Err::<(), RepoError>(RepoError::LockConflict) {
        let i = choose|i: int|
            0 <= i < held.len() && (#[trigger] held[i]).0@ != own@ && (held[i].1 matches Some(h)
                && !h.spec_compatible(state));
        assert(held[i].0 == ids[i]);
        assert(objects.contains_key((ObjectKind::Lock, ids[i]@)));
    }
}

impl<B: BackendWrite> DecryptedRepo<B> {
    /// Removes the lock stored under `lock_id`, whoever holds it: for a
    /// lock that a session left behind.
    pub fn purge_lock(&mut self, lock_id: &Id) -> (r: Result<(), RepoError>)
        ensures
            exists|m: &mut B, a: Result<(), BackendError>| #[trigger]
                call_ensures(B::remove, (m, ObjectKind::Lock, lock_id), a) && *m == old(
                    self,
                ).spec_backend() && *final(m) == final(self).spec_backend() && r
                    == spec_from_backend(a),
            final(self).spec_key() == old(self).spec_key(),
            final(self).spec_key_id() == old(self).spec_key_id(),
            r is Ok ==> final(self).objects() == old(self).objects().remove(
                (ObjectKind::Lock, lock_id@),
            ),
            r is Err ==> final(self).objects() == old(self).objects(),
            r matches Err(e) ==> e is Backend,
    {
        match self.backend.remove(ObjectKind::Lock, lock_id) {
            Ok(()) => Ok(()),
            Err(e) => Err(RepoError::Backend(e)),
        }
    }

    /// Locks the repository for the access that `marker` asks for.
    ///
    /// The lock is written first, under the identifier of its record, and
    /// then checked against every other lock in the store. It stays where
    /// every one of them admits it. Where one does not, the lock is removed
    /// again and the error is `LockConflict`. A lock of the very same
    /// record that is already there counts as a conflict too. Whatever the
    /// error, the objects are as they were, unless the error is one of the
    /// backend.
    ///
    /// The result follows three steps, each as its own contract says: the
    /// configuration is read with [`DecryptedRepo::read_config`], the lock
    /// is written with [`place_lock`], and it is checked with
    /// [`settle_lock`]. The first step that fails gives the error.
    #[verifier::rlimit(50)]
    pub fn lock(self, marker: crate::repo::marker::LockMarker, meta: LockMeta) -> (r: Result<
        LockedRepo<B>,
        (Self, RepoError),
    >)
        ensures
            match r {
                Ok(locked) => locked.spec_key() == self.spec_key() && locked.spec_key_id()
                    == self.spec_key_id() && locked.spec_lock() == (Lock {
                    meta,
                    state: marker.state,
                }) && spec_locked(
                    self.objects(),
                    locked.objects(),
                    self.spec_key(),
                    locked.spec_lock(),
                    locked.spec_lock_id(),
                ),
                Err((repo, e)) => repo.spec_key() == self.spec_key() && repo.spec_key_id()
                    == self.spec_key_id() && (e is Backend || (repo.objects() == self.objects() && (
                e == RepoError::LockConflict || e is Pipeline || e is Format))) && (e
                    == RepoError::LockConflict ==> spec_refused(
                    self.objects(),
                    self.spec_key(),
                    Lock { meta, state: marker.state },
                )),
            },
            exists|read: Result<Config, RepoError>| #[trigger]
                call_ensures(Self::read_config, (&self,), read) && match read {
                    Err(e) => r matches Err((repo, err)) && err == e && repo.spec_backend()
                        == self.spec_backend(),
                    Ok(config) => exists|m: &mut B, placed: Result<Id, RepoError>| #[trigger]
                        call_ensures(
                            place_lock::<B>,
                            (m, &self.spec_key(), &config.process, &(Lock { meta, state: marker.state })),
                            placed,
                        ) && *m == self.spec_backend() && match placed {
                            Err(e) => r matches Err((repo, err)) && err == e && repo.spec_backend()
                                == *final(m),
                            Ok(lock_id) => exists|n: &mut B, settled: Result<(), RepoError>| #[trigger]
                                call_ensures(
                                    settle_lock::<B>,
                                    (n, &self.spec_key(), &lock_id, &marker.state),
                                    settled,
                                ) && *n == *final(m) && match settled {
                                    Ok(_) => r matches Ok(locked) && locked.spec_backend() == *final(n)
                                        && locked.spec_lock_id() == lock_id && locked.spec_config()
                                        == config,
                                    Err(e) => r matches Err((repo, err)) && err == e
                                        && repo.spec_backend() == *final(n),
                                },
                        },
                },
    {
        let read = self.read_config();
        let config = match read {
            Ok(config) => config,
            Err(e) => {
                return Err((self, e));
            },
        };
        let lock = Lock { meta, state: marker.state };
        let mut repo = self;
        let ghost before = repo.backend.objects();
        let placed = place_lock(&mut repo.backend, &repo.key, &config.process, &lock);
        let lock_id = match placed {
            Ok(lock_id) => lock_id,
            Err(e) => {
                return Err((repo, e));
            },
        };
        proof {
            let now = repo.backend.objects();
            assert(now.remove((ObjectKind::Lock, lock_id@)) =~= before);
        }
        let settled = settle_lock(&mut repo.backend, &repo.key, &lock_id, &lock.state);
        match settled {
            Ok(()) => Ok(
                LockedRepo {
                    backend: repo.backend,
                    key: repo.key,
                    key_id: repo.key_id,
                    lock,
                    lock_id,
                    config,
                },
            ),
            Err(e) => Err((repo, e)),
        }
    }
}

/// Whether `after` is `before` with the lock `lock` stored under `lock_id`,
/// the identifier of its record, and every lock in `before` admits it.
pub open spec fn spec_locked(
    before: Objects,
    after: Objects,
    key: Key,
    lock: Lock,
    lock_id: Id,
) -> bool {
    &&& lock_id@ == spec_lock_id(key, lock)
    &&& !before.contains_key((ObjectKind::Lock, lock_id@))
    &&& after == before.insert(
        (ObjectKind::Lock, lock_id@),
        after[(ObjectKind::Lock, lock_id@)],
    )
    &&& spec_lock_state(key, after[(ObjectKind::Lock, lock_id@)]) == Some(lock.state)
    &&& spec_admitted(before, key, lock_id@, lock.state)
}

/// Whether the lock `lock` is refused: a lock of the same record is among
/// the objects, or one that does not admit it.
pub open spec fn spec_refused(objects: Objects, key: Key, lock: Lock) -> bool {
    objects.contains_key((ObjectKind::Lock, spec_lock_id(key, lock))) || spec_conflicts(
        objects,
        key,
        spec_lock_id(key, lock),
        lock.state,
    )
}

/// Whether `objects` hold one lock and no other: the one under `held_id`,
/// in the state `held`.
pub open spec fn spec_one_lock(objects: Objects, key: Key, held_id: Id, held: LockState) -> bool {
    &&& objects.contains_key((ObjectKind::Lock, held_id@))
    &&& spec_lock_state(key, objects[(ObjectKind::Lock, held_id@)]) == Some(held)
    &&& forall|id: Id| #[trigger]
        objects.contains_key((ObjectKind::Lock, id@)) ==> id@ == held_id@
}

/// Beside one lock that is held, a lock that is asked for is admitted
/// exactly where the two states are compatible, which is where the table
/// admits the two levels on every kind; otherwise it is refused.
pub proof fn lemma_one_lock_decides(
    objects: Objects,
    key: Key,
    held_id: Id,
    held: LockState,
    lock: Lock,
)
    requires
        spec_one_lock(objects, key, held_id, held),
        !objects.contains_key((ObjectKind::Lock, spec_lock_id(key, lock))),
    ensures
        spec_admitted(objects, key, spec_lock_id(key, lock), lock.state) <==> held.spec_compatible(
            lock.state,
        ),
        spec_refused(objects, key, lock) <==> !held.spec_compatible(lock.state),
        held.spec_compatible(lock.state) <==> (forall|kind: ObjectKind|
            crate::obj::lock::spec_admits(
                #[trigger] held.spec_access(kind),
                lock.state.spec_access(kind),
            )),
{
    let own = spec_lock_id(key, lock);
    crate::obj::lock::lemma_compatible_iff_table(held, lock.state);
    assert(held_id@ != own);
    if spec_admitted(objects, key, own, lock.state) {
        assert(objects.contains_key((ObjectKind::Lock, held_id@)) && held_id@ != own);
    }
    if held.spec_compatible(lock.state) {
        assert forall|id: Id| #[trigger]
            objects.contains_key((ObjectKind::Lock, id@)) && id@ != own implies (spec_lock_state(
            key,
            objects[(ObjectKind::Lock, id@)],
        ) matches Some(h) && h.spec_compatible(lock.state)) by {
            assert(id@ == held_id@);
        }
    }
    if spec_conflicts(objects, key, own, lock.state) {
        let id = choose|id: Id| #[trigger]
            objects.contains_key((ObjectKind::Lock, id@)) && id@ != own && (spec_lock_state(
                key,
                objects[(ObjectKind::Lock, id@)],
            ) matches Some(h) && !h.spec_compatible(lock.state));
        assert(id@ == held_id@);
    }
    if !held.spec_compatible(lock.state) {
        assert(objects.contains_key((ObjectKind::Lock, held_id@)) && held_id@ != own && (
        spec_lock_state(key, objects[(ObjectKind::Lock, held_id@)]) matches Some(h)
            && !h.spec_compatible(lock.state)));
    }
}

/// While a lock is stored, no lock that its state does not admit can be
/// granted: of two sessions that ask for access that excludes the other,
/// one after the other, the second is not served.
pub proof fn lemma_granted_excludes(
    before: Objects,
    after: Objects,
    key: Key,
    first: Lock,
    first_id: Id,
    second: Lock,
    later: Objects,
    second_id: Id,
)
    requires
        spec_locked(before, after, key, first, first_id),
        !first.state.spec_compatible(second.state),
    ensures
        !spec_locked(after, later, key, second, second_id),
{
    if spec_locked(after, later, key, second, second_id) {
        assert(after.contains_key((ObjectKind::Lock, first_id@)));
        assert(first_id@ != second_id@);
        assert(spec_lock_state(key, after[(ObjectKind::Lock, first_id@)]) matches Some(h)
            && h.spec_compatible(second.state));
    }
}

/// Writes `lock` under the identifier of its record, unless a lock is
/// stored there already.
///
/// The backend is asked first whether an object is stored under the
/// identifier. Where it says so, that is a conflict; where it fails
/// otherwise than with `NotFound`, that is the error. Else the lock is
/// stored with [`store`], and the result follows what that gives.
#[verifier::rlimit(50)]
pub fn place_lock<B: BackendWrite>(
    backend: &mut B,
    key: &Key,
    process: &ProcessOptions,
    lock: &Lock,
) -> (r: Result<Id, RepoError>)
    ensures
        final(backend).is_created() == old(backend).is_created(),
        r matches Ok(lock_id) ==> lock_id@ == spec_lock_id(*key, *lock) && !old(
            backend,
        ).objects().contains_key((ObjectKind::Lock, lock_id@)) && final(backend).objects() == old(
            backend,
        ).objects().insert(
            (ObjectKind::Lock, lock_id@),
            final(backend).objects()[(ObjectKind::Lock, lock_id@)],
        ) && spec_lock_state(*key, final(backend).objects()[(ObjectKind::Lock, lock_id@)]) == Some(
            lock.state,
        ),
        r is Err ==> final(backend).objects() == old(backend).objects(),
        r == Err::<Id, RepoError>(RepoError::LockConflict) ==> old(backend).objects().contains_key(
            (ObjectKind::Lock, spec_lock_id(*key, *lock)),
        ),
        r matches Err(e) ==> e == RepoError::LockConflict || e is Backend || e is Pipeline,
        exists|lock_id: Id, there: Result<(), BackendError>| #[trigger]
            call_ensures(B::contains, (&*old(backend), ObjectKind::Lock, &lock_id), there)
                && lock_id@ == spec_lock_id(*key, *lock) && match there {
                Ok(_) => r == Err::<Id, RepoError>(RepoError::LockConflict) && *final(backend)
                    == *old(backend),
                Err(BackendError::NotFound) => exists|m: &mut B, stored: Result<(), RepoError>| #[trigger]
                    call_ensures(
                        store::<B, Lock>,
                        (m, process, key, ObjectKind::Lock, &lock_id, lock),
                        stored,
                    ) && *m == *old(backend) && *final(m) == *final(backend) && match stored {
                        Ok(_) => r == Ok::<Id, RepoError>(lock_id),
                        Err(e) => r == Err::<Id, RepoError>(e),
                    },
                Err(e) => r == Err::<Id, RepoError>(RepoError::Backend(e)) && *final(backend)
                    == *old(backend),
            },
{
    let fields = lock.to_fields();
    let bytes = write_record(&fields);
    let lock_id = process.identifier.create().identify(key, bytes.as_slice());
    let there = backend.contains(ObjectKind::Lock, &lock_id);
    match there {
        Ok(()) => {
            return Err(RepoError::LockConflict);
        },
        Err(BackendError::NotFound) => {},
        Err(e) => {
            return Err(RepoError::Backend(e));
        },
    }
    let stored = store(backend, process, key, ObjectKind::Lock, &lock_id, lock);
    match stored {
        Ok(()) => {
            proof {
                lock.lemma_fields_valid();
                lemma_state_of_lock(*lock);
            }
            Ok(lock_id)
        },
        Err(e) => Err(e),
    }
}

/// What checking a lock under `own` that asks for `state` makes of the
/// backend's listing of the locks: an error of the backend is the cause of
/// failure; else the locks are read with [`read_locks`], whose error is the
/// cause, and what was read decides.
pub open spec fn spec_checked<B: BackendRead>(
    backend: &B,
    key: &Key,
    own: &Id,
    state: LockState,
    listed: Result<Vec<Id>, BackendError>,
    cause: Result<(), RepoError>,
) -> bool {
    match listed {
        Err(e) => cause == Err::<(), RepoError>(RepoError::Backend(e)),
        Ok(ids) => exists|read: Result<Vec<(Id, Option<LockState>)>, BackendError>| #[trigger]
            call_ensures(read_locks::<B>, (backend, key, &ids, own), read) && match read {
                Err(e) => cause == Err::<(), RepoError>(RepoError::Backend(e)),
                Ok(held) => cause == spec_decide(held@, own@, state),
            },
    }
}

/// Checks a lock under `own` that asks for `state` against the locks in
/// the store: lists them, reads the state of each, and decides with
/// [`decide_lock`].
pub fn check_locks<B: BackendRead>(backend: &B, key: &Key, own: &Id, state: &LockState) -> (r:
    Result<(), RepoError>)
    ensures
        exists|listed: Result<Vec<Id>, BackendError>| #[trigger]
            call_ensures(B::iter, (backend, ObjectKind::Lock), listed) && spec_checked(
                backend,
                key,
                own,
                *state,
                listed,
                r,
            ),
        r is Ok ==> spec_admitted(backend.objects(), *key, own@, *state),
        r == Err::<(), RepoError>(RepoError::LockConflict) ==> spec_conflicts(
            backend.objects(),
            *key,
            own@,
            *state,
        ),
        r matches Err(e) ==> e == RepoError::LockConflict || e is Backend || e is Format,
{
    let listed = backend.iter(ObjectKind::Lock);
    let ids = match listed {
        Ok(ids) => ids,
        Err(e) => {
            return Err(RepoError::Backend(e));
        },
    };
    let read = read_locks(backend, key, &ids, own);
    let held = match read {
        Ok(held) => held,
        Err(e) => {
            assert(spec_checked(
                backend,
                key,
                own,
                *state,
                listed,
                Err::<(), RepoError>(RepoError::Backend(e)),
            ));
            return Err(RepoError::Backend(e));
        },
    };
    let r = decide_lock(&held, own, state);
    proof {
        lemma_all_pass(backend, key, own, *state, ids@, held@);
        assert(spec_checked(backend, key, own, *state, listed, r));
    }
    r
}

/// Checks the lock under `own`, which has just been written, against the
/// other locks with [`check_locks`], and removes it again where it is not
/// admitted. Where the backend fails to remove it, that is the error.
#[verifier::rlimit(50)]
pub fn settle_lock<B: BackendWrite>(backend: &mut B, key: &Key, own: &Id, state: &LockState) -> (r:
    Result<(), RepoError>)
    requires
        old(backend).objects().contains_key((ObjectKind::Lock, own@)),
    ensures
        final(backend).is_created() == old(backend).is_created(),
        r is Ok ==> final(backend).objects() == old(backend).objects() && spec_admitted(
            old(backend).objects().remove((ObjectKind::Lock, own@)),
            *key,
            own@,
            *state,
        ),
        r == Err::<(), RepoError>(RepoError::LockConflict) ==> spec_conflicts(
            old(backend).objects().remove((ObjectKind::Lock, own@)),
            *key,
            own@,
            *state,
        ),
        r matches Err(e) ==> e is Backend || (final(backend).objects() == old(
            backend,
        ).objects().remove((ObjectKind::Lock, own@)) && (e == RepoError::LockConflict
            || e is Format)),
        exists|checked: Result<(), RepoError>| #[trigger]
            call_ensures(check_locks::<B>, (&*old(backend), key, own, state), checked)
                && match checked {
                Ok(_) => r is Ok && *final(backend) == *old(backend),
                Err(cause) => exists|m: &mut B, gone: Result<(), BackendError>| #[trigger]
                    call_ensures(B::remove, (m, ObjectKind::Lock, own), gone) && *m == *old(backend)
                        && *final(m) == *final(backend) && match gone {
                        Ok(_) => r == Err::<(), RepoError>(cause),
                        Err(e) => r == Err::<(), RepoError>(RepoError::Backend(e)),
                    },
            },
{
    let ghost now = backend.objects();
    let ghost before = now.remove((ObjectKind::Lock, own@));
    let checked = check_locks(backend, key, own, state);
    match checked {
        Ok(()) => {
            proof {
                assert forall|id: Id| #[trigger]
                    before.contains_key((ObjectKind::Lock, id@)) && id@ != own@ implies (
                spec_lock_state(*key, before[(ObjectKind::Lock, id@)]) matches Some(held)
                    && held.spec_compatible(*state)) by {
                    assert(now.contains_key((ObjectKind::Lock, id@)));
                }
            }
            Ok(())
        },
        Err(e) => {
            proof {
                if e == RepoError::LockConflict {
                    let id = choose|id: Id| #[trigger]
                        now.contains_key((ObjectKind::Lock, id@)) && id@ != own@ && (
                        spec_lock_state(*key, now[(ObjectKind::Lock, id@)]) matches Some(held)
                            && !held.spec_compatible(*state));
                    assert(before.contains_key((ObjectKind::Lock, id@)));
                }
            }
            let gone = backend.remove(ObjectKind::Lock, own);
            match gone {
                Ok(()) => Err(e),
                Err(b) => Err(RepoError::Backend(b)),
            }
        },
    }
}

impl<B: BackendWrite> LockedRepo<B> {
    /// The backend of the repository.
    pub closed spec fn spec_backend(&self) -> B {
        self.backend
    }

    /// The master key.
    pub closed spec fn spec_key(&self) -> Key {
        self.key
    }

    /// The identifier of the wrapped key that the master key came from.
    pub closed spec fn spec_key_id(&self) -> Id {
        self.key_id
    }

    /// The lock that the session holds.
    pub closed spec fn spec_lock(&self) -> Lock {
        self.lock
    }

    /// The identifier under which the lock is stored.
    pub closed spec fn spec_lock_id(&self) -> Id {
        self.lock_id
    }

    /// The configuration, as it was when the lock was taken.
    pub closed spec fn spec_config(&self) -> Config {
        self.config
    }

    /// The objects of the repository.
    pub open spec fn objects(&self) -> Objects {
        self.spec_backend().objects()
    }

    /// Ends the session: removes the lock, whatever else has happened.
    /// The backend is asked once, to remove the lock, and its answer is
    /// the result. Where the lock cannot be removed it stays in the store,
    /// and the error says so.
    pub fn unlock(self) -> (r: (DecryptedRepo<B>, Result<(), RepoError>))
        ensures
            exists|m: &mut B, answer: Result<(), BackendError>| #[trigger]
                call_ensures(B::remove, (m, ObjectKind::Lock, &self.spec_lock_id()), answer) && *m
                    == self.spec_backend() && *final(m) == r.0.spec_backend() && r.1
                    == spec_from_backend(answer),
            r.0.spec_key() == self.spec_key(),
            r.0.spec_key_id() == self.spec_key_id(),
            r.1 is Ok ==> r.0.objects() == self.objects().remove(
                (ObjectKind::Lock, self.spec_lock_id()@),
            ),
            r.1 is Err ==> r.0.objects() == self.objects(),
            r.1 matches Err(e) ==> e is Backend,
    {
        let mut backend = self.backend;
        let removed = match backend.remove(ObjectKind::Lock, &self.lock_id) {
            Ok(()) => Ok(()),
            Err(e) => Err(RepoError::Backend(e)),
        };
        (DecryptedRepo { backend, key: self.key, key_id: self.key_id }, removed)
    }

    /// The parts of the session, with the lock left in the store: the
    /// backend, the master key, the identifier of its wrapped form, the
    /// lock, and the identifier of the lock.
    pub fn into_inner(self) -> (r: (B, Key, Id, Lock, Id))
        ensures
            r.0 == self.spec_backend(),
            r.1 == self.spec_key(),
            r.2 == self.spec_key_id(),
            r.3 == self.spec_lock(),
            r.4 == self.spec_lock_id(),
    {
        (self.backend, self.key, self.key_id, self.lock, self.lock_id)
    }

    pub fn key(&self) -> (r: &Key)
        ensures
            *r == self.spec_key(),
    {
        &self.key
    }

    pub fn key_id(&self) -> (r: &Id)
        ensures
            *r == self.spec_key_id(),
    {
        &self.key_id
    }

    pub fn lock(&self) -> (r: &Lock)
        ensures
            *r == self.spec_lock(),
    {
        &self.lock
    }

    pub fn lock_id(&self) -> (r: &Id)
        ensures
            *r == self.spec_lock_id(),
    {
        &self.lock_id
    }

    pub fn config(&self) -> (r: &Config)
        ensures
            *r == self.spec_config(),
    {
        &self.config
    }

    /// The backend.
    pub fn backend(&self) -> (r: &B)
        ensures
            *r == self.spec_backend(),
    {
        &self.backend
    }

    /// The backend, for writing. The lock of the session stays where it is
    /// as long as the caller leaves it there.
    pub(crate) fn backend_mut(&mut self) -> (r: &mut B)
        ensures
            *r == old(self).spec_backend(),
            final(self).spec_backend() == *final(r),
            final(self).spec_key() == old(self).spec_key(),
            final(self).spec_key_id() == old(self).spec_key_id(),
            final(self).spec_lock() == old(self).spec_lock(),
            final(self).spec_lock_id() == old(self).spec_lock_id(),
            final(self).spec_config() == old(self).spec_config(),
    {
        &mut self.backend
    }
}

} // verus!
