use std::cell::Cell;

use dechst::backend::ext::{FindIdExt, Find, ReadToEnd};
use dechst::backend::memory::MemoryBackend;
use dechst::backend::typed::{
    DirectoryKind, GenericRead, GenericReadDid, GenericReadExt, GenericWrite, GenericWriteDid,
    TypedBackend,
};
use dechst::backend::{BackendError, BackendRead, BackendWrite};
use dechst::id::Id;
use dechst::obj::key::{EncryptOptions, Key, KeyBytes, KeyMeta};
use dechst::obj::lock::{Lock, LockMeta};
use dechst::obj::{ObjectKind, ObjectMetadata};
use dechst::opts::{IdOpt, ProcessOpts};
use dechst::os::{unix, Timestamp, User};
use dechst::process::compress::{Compress, Compression, CompressionParams};
use dechst::process::encrypt::{Encrypt, Encryption};
use dechst::process::format::{Field, Format, Formatter, FormatterParams};
use dechst::process::identify::{Identifier, Identify, IdentifierParams};
use dechst::process::verify::{Verifier, VerifierParams, Verify};
use dechst::process::Instanciate;
use dechst::repo::marker::LockMarker;
use dechst::repo::unlock::{get_key_id, resolve_id, try_unlock, ResolveError, UnlockError};
use dechst::repo::{store, Repo, RepoError};

/// What a store is asked to do.
#[derive(Debug, Clone, Copy, PartialEq, Eq)]
enum Op {
    Verify,
    Iter,
    Contains,
    Read,
    Remove,
    Write,
}

/// A store in memory whose operations fail with an error of the storage
/// from a chosen call on.
#[derive(Debug)]
struct Flaky {
    inner: MemoryBackend,
    failing: Option<Op>,
    after: Cell<usize>,
}

impl Flaky {
    fn fails(&self, op: Op) -> bool {
        if self.failing != Some(op) {
            return false;
        }
        if self.after.get() == 0 {
            true
        } else {
            self.after.set(self.after.get() - 1);
            false
        }
    }
}

impl BackendRead for Flaky {
    fn mount_point(&self) -> String {
        self.inner.mount_point()
    }

    fn verify(&self) -> Result<(), BackendError> {
        if self.fails(Op::Verify) {
            return Err(BackendError::Io);
        }
        self.inner.verify()
    }

    fn iter(&self, kind: ObjectKind) -> Result<Vec<Id>, BackendError> {
        if self.fails(Op::Iter) {
            return Err(BackendError::Io);
        }
        self.inner.iter(kind)
    }

    fn contains(&self, kind: ObjectKind, id: &Id) -> Result<(), BackendError> {
        if self.fails(Op::Contains) {
            return Err(BackendError::Io);
        }
        self.inner.contains(kind, id)
    }

    fn meta(&self, kind: ObjectKind, id: &Id) -> Result<ObjectMetadata, BackendError> {
        self.inner.meta(kind, id)
    }

    fn read_at(&self, kind: ObjectKind, id: &Id, offset: u32, len: usize) -> Result<Vec<u8>, BackendError> {
        self.inner.read_at(kind, id, offset, len)
    }

    fn read_all(&self, kind: ObjectKind, id: &Id, buf: &mut Vec<u8>) -> Result<usize, BackendError> {
        if self.fails(Op::Read) {
            return Err(BackendError::Io);
        }
        self.inner.read_all(kind, id, buf)
    }
}

impl BackendWrite for Flaky {
    fn create(&mut self) -> Result<(), BackendError> {
        self.inner.create()
    }

    fn remove(&mut self, kind: ObjectKind, id: &Id) -> Result<(), BackendError> {
        if self.fails(Op::Remove) {
            return Err(BackendError::Io);
        }
        self.inner.remove(kind, id)
    }

    fn write_all(&mut self, kind: ObjectKind, id: &Id, buf: &[u8]) -> Result<(), BackendError> {
        if self.fails(Op::Write) {
            return Err(BackendError::Io);
        }
        self.inner.write_all(kind, id, buf)
    }
}

const PASSWORD: &[u8] = b"password";

fn user() -> User {
    User::Unix(unix::User { hostname: None, username: None, uid: None, gid: None })
}

fn meta() -> LockMeta {
    LockMeta { user: user(), created: Timestamp { secs: 1, nanos: 2 }, pid: 3 }
}

fn cheap() -> EncryptOptions {
    EncryptOptions { mem_cost: 8, time_cost: 1, parallel_cost: 1 }
}

/// A repository in a store that fails at `op` after `after` calls of it.
fn repository(op: Option<Op>, after: usize) -> (Flaky, Id) {
    let process = ProcessOpts::recommended().options().unwrap();
    let key_meta = KeyMeta::new(user(), Timestamp { secs: 0, nanos: 0 });
    let (repo, key_id) =
        Repo::init(MemoryBackend::new("memory"), process, key_meta, cheap(), PASSWORD).unwrap();
    (Flaky { inner: repo.into_inner(), failing: op, after: Cell::new(after) }, key_id)
}

#[test]
fn storage_errors_are_handed_on() {
    let (backend, key_id) = repository(Some(Op::Iter), 0);
    assert_eq!(backend.find_id(ObjectKind::Key, "a"), Err(BackendError::Io));
    assert_eq!(backend.find_ids(ObjectKind::Key, &["a"]), Err(BackendError::Io));
    // nothing to search for: the store is not asked
    assert_eq!(backend.find_ids(ObjectKind::Key, &[]), Ok(Vec::new()));
    assert_eq!(
        resolve_id(&backend, ObjectKind::Key, &IdOpt { id: "a".to_string() }),
        Err(ResolveError::Backend(BackendError::Io))
    );
    // a whole identifier needs no search
    assert_eq!(
        resolve_id(&backend, ObjectKind::Key, &IdOpt { id: key_id.to_hex() }),
        Ok(key_id)
    );
    let repo = Repo::open(backend).unwrap();
    assert_eq!(get_key_id(&repo, "a"), Err(ResolveError::Backend(BackendError::Io)));
    assert_eq!(repo.keys(), Err(RepoError::Backend(BackendError::Io)));
    let (repo, e) = repo.unlock(PASSWORD).unwrap_err();
    assert_eq!(e, RepoError::Backend(BackendError::Io));
    let (repo, e) = try_unlock(repo, Some("a"), Some(PASSWORD)).unwrap_err();
    assert_eq!(e, UnlockError::Resolve(ResolveError::Backend(BackendError::Io)));
    let (_, e) = try_unlock(repo, None, None).unwrap_err();
    assert_eq!(e, UnlockError::Repo(RepoError::Backend(BackendError::Io)));

    let (backend, key_id) = repository(Some(Op::Verify), 0);
    assert_eq!(Repo::open(backend).map(|_| ()), Err(RepoError::Backend(BackendError::Io)));

    let (backend, _) = repository(Some(Op::Read), 0);
    assert_eq!(backend.read_to_end(ObjectKind::Key, &key_id), Err(BackendError::Io));
    let (_, e) = Repo::open(backend).unwrap().decrypt(key_id, PASSWORD).unwrap_err();
    assert_eq!(e, RepoError::Backend(BackendError::Io));
}

#[test]
fn lock_is_removed_when_the_check_fails() {
    // the listing of the locks fails after the lock has been written
    let (backend, key_id) = repository(Some(Op::Iter), 0);
    let unlocked = Repo::open(backend).unwrap().decrypt(key_id, PASSWORD).unwrap();
    let (unlocked, e) = unlocked.lock(LockMarker::read(), meta()).unwrap_err();
    assert_eq!(e, RepoError::Backend(BackendError::Io));
    assert_eq!(unlocked.backend().inner.iter(ObjectKind::Lock), Ok(Vec::new()));

    // the lock cannot be written
    let (backend, key_id) = repository(Some(Op::Write), 0);
    let unlocked = Repo::open(backend).unwrap().decrypt(key_id, PASSWORD).unwrap();
    let (unlocked, e) = unlocked.lock(LockMarker::read(), meta()).unwrap_err();
    assert_eq!(e, RepoError::Backend(BackendError::Io));
    assert_eq!(unlocked.backend().inner.iter(ObjectKind::Lock), Ok(Vec::new()));

    // the store cannot tell whether the lock is there already
    let (backend, key_id) = repository(Some(Op::Contains), 0);
    let unlocked = Repo::open(backend).unwrap().decrypt(key_id, PASSWORD).unwrap();
    let (unlocked, e) = unlocked.lock(LockMarker::read(), meta()).unwrap_err();
    assert_eq!(e, RepoError::Backend(BackendError::Io));
    assert_eq!(unlocked.backend().inner.iter(ObjectKind::Lock), Ok(Vec::new()));
}

#[test]
fn lock_stays_where_it_cannot_be_removed() {
    let (backend, key_id) = repository(Some(Op::Remove), 0);
    let unlocked = Repo::open(backend).unwrap().decrypt(key_id, PASSWORD).unwrap();
    let locked = unlocked.lock(LockMarker::write(), meta()).unwrap();
    let lock_id = *locked.lock_id();
    let (mut unlocked, removed) = locked.unlock();
    assert_eq!(removed, Err(RepoError::Backend(BackendError::Io)));
    assert_eq!(unlocked.backend().inner.iter(ObjectKind::Lock), Ok(vec![lock_id]));
    assert_eq!(unlocked.purge_lock(&lock_id), Err(RepoError::Backend(BackendError::Io)));
    // a second session is refused, and cannot take its own lock away
    let (unlocked, e) = unlocked.lock(LockMarker::write(), LockMeta { pid: 4, ..meta() }).unwrap_err();
    assert_eq!(e, RepoError::Backend(BackendError::Io));
    assert_eq!(unlocked.backend().inner.iter(ObjectKind::Lock).unwrap().len(), 2);
}

#[test]
fn store_leaves_the_objects_when_it_fails() {
    let (mut backend, _) = repository(Some(Op::Write), 0);
    let key = Key::from_parts(KeyMeta::new(user(), Timestamp { secs: 0, nanos: 0 }), KeyBytes::random(32));
    let lock = Lock::new(meta(), LockMarker::read().into_state());
    let process = ProcessOpts::recommended().options().unwrap();
    assert_eq!(
        store(&mut backend, &process, &key, ObjectKind::Lock, &Id::zero(), &lock),
        Err(RepoError::Backend(BackendError::Io))
    );
    assert_eq!(backend.inner.iter(ObjectKind::Lock), Ok(Vec::new()));
}

fn through<C: Compress, E: Encrypt, V: Verify, I: Identify, F: Format>(
    c: &C,
    e: &E,
    v: &V,
    i: &I,
    f: &F,
    key: &Key,
) {
    let data = b"the same bytes, again and again and again and again".repeat(10);
    let packed = c.compress(&data).unwrap();
    assert_eq!(c.decompress(&packed), Ok(data.clone()));
    let hidden = e.encrypt(key, &data).unwrap();
    assert_eq!(e.decrypt(key, &hidden), Ok(data.clone()));
    let tag = v.tag(key, &data).unwrap();
    assert_eq!(v.verify(key, &tag, &data), Ok(()));
    assert_eq!(i.identify(key, &data), i.identify(key, &data));
    let fields = vec![Field::Bytes(data), Field::Uint(1)];
    assert_eq!(f.parse(&f.format(&fields).unwrap()), Ok(fields));
}

fn made<P: Instanciate>(params: P) -> P::Instance {
    params.create()
}

#[test]
fn algorithms_by_their_traits() {
    let key = Key::from_parts(KeyMeta::new(user(), Timestamp { secs: 0, nanos: 0 }), KeyBytes::random(32));
    through(
        &Compression::Brotli,
        &Encryption::ChaCha20 { iv: [1; 12] },
        &Verifier::Blake3,
        &Identifier::Blake3,
        &Formatter::Cbor,
        &key,
    );
    through(&Compression::Off, &Encryption::Off, &Verifier::Off, &Identifier::Blake3, &Formatter::Cbor, &key);
    assert_eq!(made(CompressionParams::Brotli), Compression::Brotli);
    assert_eq!(made(VerifierParams::Blake3), Verifier::Blake3);
    assert_eq!(made(IdentifierParams::Blake3), Identifier::Blake3);
    assert_eq!(made(FormatterParams::Cbor), Formatter::Cbor);
    assert_eq!(FormatterParams::Cbor.create(), Formatter::Cbor);
    assert_eq!(made(dechst::process::encrypt::EncryptionParams::Off), Encryption::Off);
    assert_eq!(
        made(dechst::process::chunk::ChunkerParams::FastCdc(Default::default())),
        dechst::process::chunk::Chunker::fastcdc_default()
    );
    let backend = MemoryBackend::new("m");
    assert_eq!(backend.find_id(ObjectKind::Pack, "a"), Ok(Find::Absent));
    assert_eq!(backend.read_to_end(ObjectKind::Pack, &Id::zero()), Err(BackendError::NotFound));
}

#[test]
fn handles_return_what_the_store_returns() {
    // reading fails in the store: every handle that reads hands the error on
    let (backend, key_id) = repository(Some(Op::Read), 0);
    let typed = TypedBackend::new(backend);
    let mut buf = b"kept".to_vec();
    assert_eq!(typed.key().read_all(&key_id, &mut buf), Err(BackendError::Io));
    assert_eq!(buf, b"kept".to_vec());
    assert_eq!(typed.key().read_to_end(&key_id), Err(BackendError::Io));
    assert_eq!(typed.config().read_all(&mut buf), Err(BackendError::Io));
    assert_eq!(typed.config().read_to_end(), Err(BackendError::Io));
    assert_eq!(typed.pack().read_all(&key_id, &mut buf), Err(BackendError::Io));
    assert_eq!(typed.pack().read_to_end(&key_id), Err(BackendError::Io));
    // what does not read whole objects is answered
    assert_eq!(typed.pack().read_at(&key_id, 0, 1), Err(BackendError::NotFound));
    assert_eq!(typed.key().contains(&key_id), Ok(()));
    assert_eq!(typed.key().iter(), Ok(vec![key_id]));
    assert_eq!(typed.key().find_id(&key_id.to_hex()[..4]), Ok(Find::Unique(key_id)));

    // listing fails in the store
    let (backend, key_id) = repository(Some(Op::Iter), 0);
    let typed = TypedBackend::new(backend);
    assert_eq!(typed.key().iter(), Err(BackendError::Io));
    assert_eq!(typed.pack().iter(), Err(BackendError::Io));
    assert_eq!(typed.key().find_id("a"), Err(BackendError::Io));
    assert_eq!(typed.pack().find_id("a"), Err(BackendError::Io));
    assert_eq!(typed.key().find_ids(&["a", "b"]), Err(BackendError::Io));
    assert_eq!(typed.pack().find_ids(&["a"]), Err(BackendError::Io));
    assert_eq!(typed.key().find_ids(&[]), Ok(Vec::new()));
    assert_eq!(typed.pack().find_ids(&[]), Ok(Vec::new()));
    let stored = typed.key().read_to_end(&key_id).unwrap();
    assert_eq!(typed.key().meta(&key_id).unwrap().len, stored.len() as u64);
    let config = typed.config().read_to_end().unwrap();
    assert_eq!(typed.config().meta().unwrap().len, config.len() as u64);

    // the store works: a handle answers as the store does
    let (backend, key_id) = repository(None, 0);
    let mut typed = TypedBackend::new(backend);
    assert_eq!(typed.pack().meta(&key_id).map(|_| ()), Err(BackendError::NotFound));
    assert_eq!(typed.pack().read_at(&key_id, 0, 1), Err(BackendError::NotFound));
    assert_eq!(typed.write_all(DirectoryKind::Pack, &key_id, b"0123456789"), Ok(()));
    assert_eq!(typed.pack().meta(&key_id).unwrap().len, 10);
    assert_eq!(typed.pack().read_at(&key_id, 2, 3), Ok(b"234".to_vec()));
    let mut buf = b"ab".to_vec();
    assert_eq!(typed.pack().read_all(&key_id, &mut buf), Ok(10));
    assert_eq!(buf, b"ab0123456789".to_vec());
    assert_eq!(typed.remove(DirectoryKind::Pack, &key_id), Ok(()));
    assert_eq!(typed.remove(DirectoryKind::Pack, &key_id), Err(BackendError::NotFound));

    // writing fails in the store: nothing changes
    let (backend, key_id) = repository(Some(Op::Write), 0);
    let mut typed = TypedBackend::new(backend);
    let config = typed.config().read_to_end().unwrap();
    assert_eq!(typed.write_config(b"other"), Err(BackendError::Io));
    assert_eq!(typed.config().read_to_end(), Ok(config));
    assert_eq!(typed.write_all(DirectoryKind::Index, &key_id, b"index"), Err(BackendError::Io));
    assert_eq!(typed.index().contains(&key_id), Err(BackendError::NotFound));

    // removing fails in the store: nothing changes
    let (backend, key_id) = repository(Some(Op::Remove), 0);
    let mut typed = TypedBackend::new(backend);
    assert_eq!(typed.remove(DirectoryKind::Key, &key_id), Err(BackendError::Io));
    assert_eq!(typed.key().contains(&key_id), Ok(()));
    assert_eq!(typed.remove_config(), Err(BackendError::Io));
    assert_eq!(typed.config().contains(), Ok(()));
}
