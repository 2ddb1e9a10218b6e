use dechst::backend::ext::{read_to_end, Find};
use dechst::backend::memory::MemoryBackend;
use dechst::backend::{BackendError, BackendRead, BackendWrite};
use dechst::id::Id;
use dechst::obj::config::Config;
use dechst::obj::key::{EncryptOptions, Key, KeyBytes, KeyError, KeyMeta};
use dechst::obj::lock::{Lock, LockAccess, LockMeta};
use dechst::obj::{ObjectKind, RepoObject};
use dechst::opts::{IdOpt, ProcessOpts};
use dechst::os::{unix, Timestamp, User};
use dechst::process::chunk::{ChunkerParams, FastCdc};
use dechst::process::compress::CompressionParams;
use dechst::process::encrypt::{Encryption, EncryptionParams};
use dechst::process::format::{FormatError, FormatFailure, Formatter};
use dechst::process::identify::{Identifier, IdentifierParams};
use dechst::process::pipeline::{process, unprocess_bytes, PipelineError};
use dechst::process::verify::{VerifierParams, VerifyError};
use dechst::process::ProcessOptions;
use dechst::repo::access::{
    ConfigRead, ConfigUpdate, IndexRead, KeyRead, KeyUpdate, LockRead,
};
use dechst::repo::marker::LockMarker;
use dechst::repo::unlock::{
    get_key_id, resolve_id, settle, try_unlock, try_unlock_encrypted, try_unlock_unencrypted,
    ResolveError, UnlockError,
};
use dechst::repo::{
    check_locks, decide_lock, key_error, load, place_lock, read_lock_state, read_locks,
    read_wrapped, settle_lock, store, DecryptedRepo, LockedRepo, Repo, RepoError,
};

const PASSWORD: &[u8] = b"correct horse battery staple";

fn user() -> User {
    User::Unix(unix::User {
        hostname: Some(b"host".to_vec()),
        username: None,
        uid: Some(1000),
        gid: None,
    })
}

fn cheap() -> EncryptOptions {
    EncryptOptions { mem_cost: 8, time_cost: 1, parallel_cost: 1 }
}

fn meta(pid: u32) -> LockMeta {
    LockMeta { user: user(), created: Timestamp { secs: 1_700_000_000, nanos: 0 }, pid }
}

fn key_meta() -> KeyMeta {
    KeyMeta::new(user(), Timestamp { secs: -5, nanos: 999_999_999 })
}

fn defaults() -> ProcessOptions {
    ProcessOpts::recommended().options().unwrap()
}

fn plain() -> ProcessOptions {
    ProcessOptions {
        chunker: ChunkerParams::FastCdc(FastCdc::default()),
        identifier: IdentifierParams::Blake3,
        compression: CompressionParams::Off,
        encryption: EncryptionParams::Off,
        verifier: VerifierParams::Off,
    }
}

fn new_repo(process: ProcessOptions) -> (Repo<MemoryBackend>, Id) {
    Repo::init(MemoryBackend::new("memory"), process, key_meta(), cheap(), PASSWORD).unwrap()
}

fn decrypted(process: ProcessOptions) -> DecryptedRepo<MemoryBackend> {
    let (repo, key_id) = new_repo(process);
    repo.decrypt(key_id, PASSWORD).unwrap()
}

/// Hands the store of a locked session to another session, with the lock
/// left where it is.
fn other_session(locked: LockedRepo<MemoryBackend>) -> (DecryptedRepo<MemoryBackend>, Id) {
    let (backend, _key, key_id, _lock, lock_id) = locked.into_inner();
    let repo = Repo::open(backend).unwrap();
    (repo.decrypt(key_id, PASSWORD).unwrap(), lock_id)
}

#[test]
fn round_trip_small_object() {
    let unlocked = decrypted(defaults());
    let config = unlocked.read_config().unwrap();
    assert_eq!(config.process, defaults());
    let input: Vec<u8> = (0..=255u8).collect();
    let stored = process(&config.process, unlocked.key(), &input).unwrap();
    let id = Identifier::Blake3.identify(unlocked.key(), &input);
    assert_eq!(id, Identifier::Blake3.identify(unlocked.key(), &input));

    let (mut backend, key, _) = unlocked.into_inner();
    backend.write_all(ObjectKind::Pack, &id, &stored).unwrap();
    let read = read_to_end(&backend, ObjectKind::Pack, &id).unwrap();
    assert_eq!(read, stored);
    assert_eq!(unprocess_bytes(&key, &read), Ok(input));
}

#[test]
fn init_lays_out_the_repository() {
    let (repo, key_id) = new_repo(defaults());
    assert_eq!(repo.backend().verify(), Ok(()));
    assert_eq!(repo.keys(), Ok(vec![key_id]));
    assert_eq!(repo.backend().iter(ObjectKind::Config), Ok(vec![Id::zero()]));
    assert_eq!(repo.backend().iter(ObjectKind::Lock), Ok(Vec::new()));
    // the key is stored under the identifier of its record
    let wrapped = repo.get_key(key_id).unwrap();
    assert_eq!(wrapped.opts(), cheap());
    let record = Formatter::Cbor.format(&wrapped.to_fields()).unwrap();
    assert_eq!(read_to_end(repo.backend(), ObjectKind::Key, &key_id), Ok(record.clone()));
    let key = wrapped.decrypt(PASSWORD).unwrap();
    assert_eq!(key_id, Identifier::Blake3.identify(&key, &record));
    assert_eq!(key.bytes().encrypt_key().len(), 32);
    assert_eq!(key.meta(), &key_meta());

    // a second repository cannot be made in the same store
    let backend = repo.into_inner();
    let backend = match Repo::init(backend, defaults(), key_meta(), cheap(), PASSWORD) {
        Ok(_) => panic!("a second repository was made"),
        Err((backend, e)) => {
            assert_eq!(e, RepoError::AlreadyExists);
            backend
        }
    };
    // the store comes back as it was
    assert_eq!(backend.iter(ObjectKind::Key), Ok(vec![key_id]));
    assert!(Repo::open(backend).is_ok());
    // costs that Argon2 refuses
    assert_eq!(
        Repo::init(
            MemoryBackend::new("m"),
            defaults(),
            key_meta(),
            EncryptOptions { mem_cost: 0, time_cost: 1, parallel_cost: 1 },
            PASSWORD
        )
        .map(|_| ())
        .map_err(|(_, e)| e),
        Err(RepoError::Key(KeyError::Derive))
    );
    assert_eq!(
        Repo::open(MemoryBackend::new("empty")).map(|_| ()),
        Err(RepoError::Backend(BackendError::InvalidLayout))
    );
}

#[test]
fn password_unwrap() {
    let (repo, key_id) = new_repo(defaults());
    let (repo, e) = repo.unlock(b"wrong").unwrap_err();
    assert_eq!(e, RepoError::PasswordMismatch);
    let (repo, e) = repo.decrypt(key_id, b"wrong").unwrap_err();
    assert_eq!(e, RepoError::PasswordMismatch);
    let unlocked = repo.unlock(PASSWORD).unwrap();
    assert_eq!(unlocked.key_id(), &key_id);
    assert_eq!(unlocked.read_config().unwrap().process, defaults());
}

#[test]
fn password_unwrap_among_several_keys() {
    let unlocked = decrypted(defaults());
    let master = unlocked.key().duplicate();
    let mut locked = unlocked.lock(LockMarker::write(), meta(1)).unwrap();
    let second = locked.key_add(cheap(), b"second password").unwrap();
    assert_eq!(locked.keys().unwrap().len(), 2);
    assert_eq!(locked.key_read(&second, b"second password").unwrap(), master);
    assert_eq!(locked.key_read(&second, PASSWORD), Err(RepoError::PasswordMismatch));
    assert_eq!(locked.key_exists(&second), Ok(()));
    assert_eq!(locked.key_find(&second.to_hex()), Ok(Find::Unique(second)));
    assert_eq!(locked.keys_find(&["", "zz"]), Ok(vec![Find::NonUnique, Find::Absent]));
    let (unlocked, removed) = locked.unlock();
    assert_eq!(removed, Ok(()));
    let (backend, _, first) = unlocked.into_inner();

    let repo = Repo::open(backend).unwrap();
    let by_second = repo.unlock(b"second password").unwrap();
    assert_eq!(by_second.key_id(), &second);
    assert_eq!(by_second.key(), &master);
    let (backend, _, _) = by_second.into_inner();
    let by_first = Repo::open(backend).unwrap().unlock(PASSWORD).unwrap();
    assert_eq!(by_first.key_id(), &first);
    let (backend, _, _) = by_first.into_inner();
    let (_, e) = Repo::open(backend).unwrap().unlock(b"third").unwrap_err();
    assert_eq!(e, RepoError::PasswordMismatch);
}

#[test]
fn unlock_without_password() {
    // a repository without password and without encryption
    let (repo, key_id) =
        Repo::init(MemoryBackend::new("plain"), plain(), key_meta(), cheap(), b"").unwrap();
    let unlocked = repo.try_unencrypted(key_id).unwrap();
    assert_eq!(unlocked.read_config().unwrap().process, plain());
    let (backend, key, _) = unlocked.into_inner();
    let unlocked = try_unlock(Repo::open(backend).unwrap(), None, None).unwrap();
    assert_eq!(unlocked.key(), &key);
    let (backend, _, _) = unlocked.into_inner();
    let unlocked =
        try_unlock_unencrypted(Repo::open(backend).unwrap(), Some(&key_id.to_hex()[..5])).unwrap();
    assert_eq!(unlocked.key_id(), &key_id);

    // a wrapped key is no key as it is
    let (repo, key_id) = new_repo(defaults());
    let (repo, e) = repo.try_unencrypted(key_id).unwrap_err();
    assert_eq!(e, RepoError::Key(KeyError::Malformed));
    let (repo, e) = try_unlock(repo, None, None).unwrap_err();
    assert_eq!(e, UnlockError::NoKey);
    let (repo, e) = repo.try_unencrypted(Id::zero()).unwrap_err();
    assert_eq!(e, RepoError::Backend(BackendError::NotFound));
    let (_, e) = repo.decrypt(Id::zero(), PASSWORD).unwrap_err();
    assert_eq!(e, RepoError::Backend(BackendError::NotFound));
}

#[test]
fn unlock_by_key_name() {
    let (repo, key_id) = new_repo(defaults());
    let hex = key_id.to_hex();
    assert_eq!(get_key_id(&repo, &hex[..6]), Ok(key_id));
    assert_eq!(get_key_id(&repo, &hex), Ok(key_id));
    let missing = if hex.starts_with('0') { "1" } else { "0" };
    assert_eq!(get_key_id(&repo, missing), Err(ResolveError::NotFound));
    assert_eq!(repo.find_key_id(&hex[..2]), Ok(Find::Unique(key_id)));

    let (repo, e) = try_unlock(repo, Some(missing), Some(PASSWORD)).unwrap_err();
    assert_eq!(e, UnlockError::Resolve(ResolveError::NotFound));
    let (repo, e) = try_unlock_encrypted(repo, Some(&hex[..4]), b"wrong").unwrap_err();
    assert_eq!(e, UnlockError::Repo(RepoError::PasswordMismatch));
    let (repo, e) = try_unlock(repo, None, Some(b"wrong")).unwrap_err();
    assert_eq!(e, UnlockError::Repo(RepoError::PasswordMismatch));
    let unlocked = try_unlock(repo, Some(&hex[..4]), Some(PASSWORD)).unwrap();
    assert_eq!(unlocked.key_id(), &key_id);
    let (backend, _, _) = unlocked.into_inner();
    let unlocked = try_unlock(Repo::open(backend).unwrap(), None, Some(PASSWORD)).unwrap();
    assert_eq!(unlocked.key_id(), &key_id);

    assert_eq!(settle(Find::Absent), Err(ResolveError::NotFound));
    assert_eq!(settle(Find::NonUnique), Err(ResolveError::NonUnique));
    assert_eq!(settle(Find::Unique(key_id)), Ok(key_id));
    assert_eq!(key_error(KeyError::PasswordMismatch), RepoError::PasswordMismatch);
    assert_eq!(key_error(KeyError::Derive), RepoError::Key(KeyError::Derive));
}

#[test]
fn resolve_whole_and_partial_ids() {
    let mut backend = MemoryBackend::new("m");
    let mut a = [0u8; 32];
    a[0] = 0xa1;
    a[1] = 0xb2;
    let mut b = a;
    b[1] = 0xc3;
    backend.write_all(ObjectKind::Snapshot, &Id(a), b"").unwrap();
    backend.write_all(ObjectKind::Snapshot, &Id(b), b"").unwrap();
    let opt = |s: &str| IdOpt { id: s.to_string() };
    assert_eq!(resolve_id(&backend, ObjectKind::Snapshot, &opt("a1b")), Ok(Id(a)));
    assert_eq!(
        resolve_id(&backend, ObjectKind::Snapshot, &opt("a1")),
        Err(ResolveError::NonUnique)
    );
    assert_eq!(
        resolve_id(&backend, ObjectKind::Snapshot, &opt("dead")),
        Err(ResolveError::NotFound)
    );
    // a whole identifier names itself, stored or not
    let whole = "ab".repeat(32);
    assert_eq!(resolve_id(&backend, ObjectKind::Snapshot, &opt(&whole)), Ok(Id([0xab; 32])));
    assert!(opt(&whole).is_full());
    assert!(!opt("a1").is_full());
    assert_eq!(opt(&whole).to_id(), Some(Id([0xab; 32])));
    assert_eq!(opt("a1").to_id(), None);
    assert_eq!(opt(&"zz".repeat(32)).to_id(), None);
    assert_eq!(opt("a1").as_str(), "a1");
}

#[test]
fn lock_exclusivity() {
    let first = decrypted(defaults());
    let marker = LockMarker::no().config(LockAccess::Exclusive);
    let locked = first.lock(marker, meta(1)).unwrap();
    assert_eq!(locked.lock().state, marker.into_state());
    assert_eq!(locked.backend().iter(ObjectKind::Lock), Ok(vec![*locked.lock_id()]));

    // the second attempt, while the first holds its lock
    let (second, first_lock) = other_session(locked);
    let (mut second, e) = second.lock(marker, meta(2)).unwrap_err();
    assert_eq!(e, RepoError::LockConflict);
    // the lock of the second attempt is gone again
    assert_eq!(second.locks(), Ok(vec![first_lock]));

    // the first holder ends its session
    assert_eq!(second.purge_lock(&first_lock), Ok(()));
    assert_eq!(second.locks(), Ok(Vec::new()));
    let locked = second.lock(marker, meta(2)).unwrap();
    assert_eq!(locked.lock().meta.pid, 2);
    let (unlocked, removed) = locked.unlock();
    assert_eq!(removed, Ok(()));
    assert_eq!(unlocked.locks(), Ok(Vec::new()));
}

#[test]
fn locks_coexist_by_the_table() {
    let levels = [LockAccess::Idle, LockAccess::Shared, LockAccess::Exclusive];
    for held in levels {
        for asked in levels {
            let first = decrypted(plain());
            let locked = first.lock(LockMarker::no().pack(held), meta(1)).unwrap();
            let (second, _) = other_session(locked);
            let result = second.lock(LockMarker::no().pack(asked), meta(2));
            assert_eq!(result.is_ok(), held.coexists(asked));
            match result {
                Ok(locked) => assert_eq!(locked.backend().iter(ObjectKind::Lock).unwrap().len(), 2),
                Err((repo, e)) => {
                    assert_eq!(e, RepoError::LockConflict);
                    assert_eq!(repo.locks().unwrap().len(), 1);
                }
            }
        }
    }
    // another kind does not conflict
    let first = decrypted(plain());
    let locked = first.lock(LockMarker::no().pack(LockAccess::Exclusive), meta(1)).unwrap();
    let (second, _) = other_session(locked);
    assert!(second.lock(LockMarker::no().index(LockAccess::Exclusive), meta(2)).is_ok());
}

#[test]
fn lock_of_the_same_record_conflicts() {
    let first = decrypted(plain());
    let locked = first.lock(LockMarker::no(), meta(1)).unwrap();
    let (second, lock_id) = other_session(locked);
    let (second, e) = second.lock(LockMarker::no(), meta(1)).unwrap_err();
    assert_eq!(e, RepoError::LockConflict);
    assert_eq!(second.locks(), Ok(vec![lock_id]));
    assert_eq!(second.lock_exists(&lock_id), Ok(()));
    assert_eq!(second.lock_find(&lock_id.to_hex()[..8]), Ok(Find::Unique(lock_id)));
    assert_eq!(second.locks_find(&["x"]), Ok(vec![Find::Absent]));
    let stored: Lock = second.lock_read(&lock_id).unwrap();
    assert_eq!(stored, Lock::new(meta(1), LockMarker::no().into_state()));
    assert_eq!(lock_id, Identifier::Blake3.identify(second.key(), &Formatter::Cbor.format(&stored.to_fields()).unwrap()));
}

#[test]
fn lock_that_cannot_be_read_refuses() {
    let first = decrypted(defaults());
    let (mut backend, _key, key_id) = first.into_inner();
    backend.write_all(ObjectKind::Lock, &Id([1; 32]), b"garbage").unwrap();
    let repo = Repo::open(backend).unwrap().decrypt(key_id, PASSWORD).unwrap();
    let (repo, e) = repo.lock(LockMarker::read(), meta(1)).unwrap_err();
    assert_eq!(e, RepoError::Format(FormatError::Failed(FormatFailure::Malformed)));
    assert_eq!(repo.locks(), Ok(vec![Id([1; 32])]));
    assert_eq!(
        repo.lock_read(&Id([1; 32])),
        Err(RepoError::Pipeline(PipelineError::Format(FormatError::Failed(FormatFailure::Malformed))))
    );
}

#[test]
fn access_follows_the_lock() {
    let unlocked = decrypted(defaults());
    let mut locked = unlocked
        .lock(LockMarker::no().config(LockAccess::Shared).index(LockAccess::Shared), meta(1))
        .unwrap();
    assert_eq!(locked.access(ObjectKind::Config), LockAccess::Shared);
    assert_eq!(locked.access(ObjectKind::Key), LockAccess::Idle);
    assert_eq!(locked.require_read(ObjectKind::Config), Ok(()));
    assert_eq!(locked.require_write(ObjectKind::Config), Err(RepoError::AccessDenied));
    assert_eq!(locked.require_read(ObjectKind::Pack), Err(RepoError::AccessDenied));

    assert_eq!(locked.config_exists(), Ok(()));
    let config = locked.config_read().unwrap();
    assert_eq!(&config, locked.config());
    assert_eq!(locked.config_write(&config), Err(RepoError::AccessDenied));
    assert_eq!(locked.keys(), Err(RepoError::AccessDenied));
    assert_eq!(locked.key_exists(&Id::zero()), Err(RepoError::AccessDenied));
    assert_eq!(locked.key_read(&Id::zero(), PASSWORD), Err(RepoError::AccessDenied));
    assert_eq!(locked.key_find("a"), Err(RepoError::AccessDenied));
    assert_eq!(locked.keys_find(&["a"]), Err(RepoError::AccessDenied));
    assert_eq!(locked.key_add(cheap(), b"new"), Err(RepoError::AccessDenied));
    assert_eq!(locked.indices(), Ok(Vec::new()));
    assert_eq!(locked.index_exists(&Id::zero()), Err(RepoError::Backend(BackendError::NotFound)));
    assert_eq!(locked.index_find("a"), Ok(Find::Absent));
    assert_eq!(locked.indices_find(&["a", "b"]), Ok(vec![Find::Absent, Find::Absent]));
    assert_eq!(
        locked.index_read(&Id::zero()).map(|_| ()),
        Err(RepoError::Backend(BackendError::NotFound))
    );
    let (unlocked, _) = locked.unlock();

    let mut locked = unlocked.lock(LockMarker::write().index(LockAccess::Idle), meta(2)).unwrap();
    assert_eq!(locked.indices(), Err(RepoError::AccessDenied));
    assert_eq!(locked.index_exists(&Id::zero()), Err(RepoError::AccessDenied));
    assert_eq!(locked.index_find("a"), Err(RepoError::AccessDenied));
    assert_eq!(locked.indices_find(&["a"]), Err(RepoError::AccessDenied));
    assert_eq!(locked.index_read(&Id::zero()).map(|_| ()), Err(RepoError::AccessDenied));
    assert_eq!(locked.keys().unwrap(), vec![*locked.key_id()]);
    // the configuration can be written again, the algorithms cannot change
    let mut config = *locked.config();
    config.version = 2;
    assert_eq!(locked.config_write(&config), Ok(()));
    assert_eq!(locked.config_read(), Ok(config));
    config.process.compression = CompressionParams::Off;
    assert_eq!(locked.config_write(&config), Err(RepoError::ProcessChanged));
    assert_eq!(locked.config_read().unwrap().process, defaults());
}

#[test]
fn records_are_stored_through_the_pipeline() {
    let unlocked = decrypted(defaults());
    let (mut backend, key, _) = unlocked.into_inner();
    let lock = Lock::new(meta(7), LockMarker::read().into_state());
    let id = Id([9; 32]);
    assert_eq!(store(&mut backend, &defaults(), &key, ObjectKind::Lock, &id, &lock), Ok(()));
    assert_eq!(load::<_, Lock>(&backend, &key, ObjectKind::Lock, &id), Ok(lock.clone()));
    // a lock is no configuration
    assert_eq!(
        load::<_, Config>(&backend, &key, ObjectKind::Lock, &id),
        Err(RepoError::Format(FormatError::Failed(FormatFailure::WrongShape)))
    );
    assert_eq!(
        load::<_, Lock>(&backend, &key, ObjectKind::Lock, &Id::zero()),
        Err(RepoError::Backend(BackendError::NotFound))
    );
    // under another key the tag does not hold
    let other = Key::from_parts(key_meta(), KeyBytes::random(32));
    assert_eq!(
        load::<_, Lock>(&backend, &other, ObjectKind::Lock, &id),
        Err(RepoError::Pipeline(PipelineError::Verify(VerifyError::VerificationFailed)))
    );
    let stored = read_to_end(&backend, ObjectKind::Lock, &id).unwrap();
    assert_eq!(
        unprocess_bytes(&key, &stored),
        Ok(Formatter::Cbor.format(&lock.to_fields()).unwrap())
    );
    assert_eq!(Lock::kind(), ObjectKind::Lock);
    assert_eq!(Config::kind(), ObjectKind::Config);
    assert_ne!(Encryption::new_chacha20(), Encryption::Off);
}

#[test]
fn lock_decision_over_a_listing() {
    let own = Id([1; 32]);
    let other = Id([2; 32]);
    let third = Id([3; 32]);
    let read = LockMarker::read().into_state();
    let write = LockMarker::write().into_state();
    let idle = LockMarker::no().into_state();
    let malformed = Err(RepoError::Format(FormatError::Failed(FormatFailure::Malformed)));
    // nothing held, or the own lock alone
    assert_eq!(decide_lock(&vec![], &own, &write), Ok(()));
    assert_eq!(decide_lock(&vec![(own, None)], &own, &write), Ok(()));
    assert_eq!(decide_lock(&vec![(own, Some(write))], &own, &write), Ok(()));
    // readers beside readers
    assert_eq!(decide_lock(&vec![(other, Some(read)), (third, Some(read))], &own, &read), Ok(()));
    assert_eq!(decide_lock(&vec![(other, Some(idle)), (own, None)], &own, &write), Ok(()));
    // a writer beside a reader
    assert_eq!(
        decide_lock(&vec![(other, Some(read)), (own, None)], &own, &write),
        Err(RepoError::LockConflict)
    );
    assert_eq!(
        decide_lock(&vec![(own, None), (third, Some(write))], &own, &read),
        Err(RepoError::LockConflict)
    );
    // a lock that could not be read
    assert_eq!(decide_lock(&vec![(other, None)], &own, &idle), malformed);
    // the first hindrance decides
    assert_eq!(decide_lock(&vec![(other, None), (third, Some(write))], &own, &read), malformed);
    assert_eq!(
        decide_lock(&vec![(third, Some(write)), (other, None)], &own, &read),
        Err(RepoError::LockConflict)
    );
}

#[test]
fn lock_steps_one_by_one() {
    let session = decrypted(defaults());
    let (mut backend, key, _) = session.into_inner();
    let first = Lock::new(meta(1), LockMarker::read().into_state());
    let second = Lock::new(meta(2), LockMarker::write().into_state());
    let first_id = place_lock(&mut backend, &key, &defaults(), &first).unwrap();
    assert_eq!(read_lock_state(&backend, &key, &first_id), Ok(Some(first.state)));
    assert_eq!(
        read_lock_state(&backend, &key, &Id::zero()),
        Err(BackendError::NotFound)
    );
    // the same record cannot be placed twice
    assert_eq!(place_lock(&mut backend, &key, &defaults(), &first), Err(RepoError::LockConflict));
    assert_eq!(settle_lock(&mut backend, &key, &first_id, &first.state), Ok(()));
    assert_eq!(check_locks(&backend, &key, &first_id, &first.state), Ok(()));
    // a writer beside the reader: placed, refused, removed
    let second_id = place_lock(&mut backend, &key, &defaults(), &second).unwrap();
    let ids = backend.iter(ObjectKind::Lock).unwrap();
    assert_eq!(ids.len(), 2);
    let held = read_locks(&backend, &key, &ids, &second_id).unwrap();
    assert_eq!(held.len(), 2);
    for (id, state) in &held {
        if *id == second_id {
            assert_eq!(*state, None);
        } else {
            assert_eq!((*id, *state), (first_id, Some(first.state)));
        }
    }
    assert_eq!(decide_lock(&held, &second_id, &second.state), Err(RepoError::LockConflict));
    assert_eq!(
        check_locks(&backend, &key, &second_id, &second.state),
        Err(RepoError::LockConflict)
    );
    assert_eq!(
        settle_lock(&mut backend, &key, &second_id, &second.state),
        Err(RepoError::LockConflict)
    );
    assert_eq!(backend.iter(ObjectKind::Lock), Ok(vec![first_id]));
    // what is no lock has no state, and refuses
    backend.write_all(ObjectKind::Lock, &Id([9; 32]), b"garbage").unwrap();
    assert_eq!(read_lock_state(&backend, &key, &Id([9; 32])), Ok(None));
    assert_eq!(
        check_locks(&backend, &key, &first_id, &LockMarker::no().into_state()),
        Err(RepoError::Format(FormatError::Failed(FormatFailure::Malformed)))
    );
    // a wrapped key is read as it is stored
    let repo = new_repo(defaults());
    let wrapped = read_wrapped(repo.0.backend(), &repo.1).unwrap();
    assert_eq!(repo.0.get_key(repo.1).unwrap().to_fields(), wrapped.to_fields());
    assert_eq!(
        read_wrapped(repo.0.backend(), &Id::zero()).map(|_| ()),
        Err(RepoError::Backend(BackendError::NotFound))
    );
}
