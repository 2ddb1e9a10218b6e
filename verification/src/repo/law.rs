//! What locking comes to in the store in memory, which answers every
//! request that it can: there the result of a lock is decided by the locks
//! that are held.

use vstd::prelude::*;
use crate::backend::ext::read_to_end;
use crate::backend::memory::MemoryBackend;
use crate::backend::{spec_lists, BackendError, BackendRead, BackendWrite, Objects};
use crate::id::Id;
use crate::obj::config::Config;
use crate::obj::key::{EncryptedKey, Key, KeyError};
use crate::obj::lock::{Lock, LockMeta, LockState};
use crate::obj::{ObjectKind, RepoObject};
use crate::process::format::{spec_record, FieldView};
use crate::process::pipeline::{spec_forward_error, PipelineError};
use crate::process::ProcessOptions;
use crate::repo::marker::LockMarker;
use crate::repo::{
    check_locks, lemma_decide, load, place_lock, read_lock_state, read_locks, settle_lock,
    spec_admitted, spec_checked, spec_conflicts, spec_decide, spec_lets_pass, spec_loaded,
    spec_lock_id, spec_lock_state, spec_read_locks, spec_read_wrapped, spec_stored_fields,
    spec_taken, spec_unwraps, store, read_wrapped, DecryptedRepo, LockedRepo, Repo, RepoError,
};

verus! {

/// The store in memory hands out what it holds, and fails with `NotFound`
/// on what it does not hold.
pub proof fn lemma_read_whole(
    backend: MemoryBackend,
    kind: ObjectKind,
    id: Id,
    answer: Result<Vec<u8>, BackendError>,
)
    requires
        call_ensures(read_to_end::<MemoryBackend>, (&backend, kind, &id), answer),
    ensures
        backend.objects().contains_key((kind, id@)) ==> (answer matches Ok(bytes) && bytes@
            == backend.objects()[(kind, id@)]),
        !backend.objects().contains_key((kind, id@)) ==> answer == Err::<Vec<u8>, BackendError>(
            BackendError::NotFound,
        ),
{
}

/// In the store in memory the state of a stored lock is read as it is
/// stored.
pub proof fn lemma_read_state(
    backend: MemoryBackend,
    key: Key,
    id: Id,
    answer: Result<Option<LockState>, BackendError>,
)
    requires
        call_ensures(read_lock_state::<MemoryBackend>, (&backend, &key, &id), answer),
        backend.objects().contains_key((ObjectKind::Lock, id@)),
    ensures
        answer == Ok::<Option<LockState>, BackendError>(
            spec_lock_state(key, backend.objects()[(ObjectKind::Lock, id@)]),
        ),
{
    let whole = choose|whole: Result<Vec<u8>, BackendError>| #[trigger]
        call_ensures(read_to_end::<MemoryBackend>, (&backend, ObjectKind::Lock, &id), whole)
            && match whole {
            Err(e) => answer == Err::<Option<LockState>, BackendError>(e),
            Ok(stored) => answer == Ok::<Option<LockState>, BackendError>(
                spec_lock_state(key, stored@),
            ),
        };
    lemma_read_whole(backend, ObjectKind::Lock, id, whole);
}

/// In the store in memory every lock of a listing is read: the states
/// that come back are those of the stored locks.
pub proof fn lemma_read_locks(
    backend: MemoryBackend,
    key: Key,
    ids: Vec<Id>,
    own: Id,
    read: Result<Vec<(Id, Option<LockState>)>, BackendError>,
)
    requires
        call_ensures(read_locks::<MemoryBackend>, (&backend, &key, &ids, &own), read),
        spec_lists(ids@, backend.objects(), ObjectKind::Lock),
    ensures
        read matches Ok(held) && spec_read_locks(&backend, &key, ids@, &own, held@) && forall|
            i: int,
        |
            0 <= i < ids@.len() && ids@[i]@ != own@ ==> (#[trigger] held@[i]).1 == spec_lock_state(
                key,
                backend.objects()[(ObjectKind::Lock, ids@[i]@)],
            ),
{
    match read {
        Err(e) => {
            let i = choose|i: int|
                0 <= i < ids@.len() && ids@[i]@ != own@ && #[trigger] call_ensures(
                    read_lock_state::<MemoryBackend>,
                    (&backend, &key, &ids@[i]),
                    Err::<Option<LockState>, BackendError>(e),
                );
            lemma_read_state(backend, key, ids@[i], Err::<Option<LockState>, BackendError>(e));
        },
        Ok(held) => {
            assert forall|i: int| 0 <= i < ids@.len() && ids@[i]@ != own@ implies (
            #[trigger] held@[i]).1 == spec_lock_state(
                key,
                backend.objects()[(ObjectKind::Lock, ids@[i]@)],
            ) by {
                lemma_read_state(
                    backend,
                    key,
                    ids@[i],
                    Ok::<Option<LockState>, BackendError>(held@[i].1),
                );
            }
        },
    }
}

/// Whether every lock among `objects` but the one under `own` is stored
/// so that its state can be read under `key`.
pub open spec fn spec_readable(objects: Objects, key: Key, own: Seq<u8>) -> bool {
    forall|id: Id| #[trigger]
        objects.contains_key((ObjectKind::Lock, id@)) && id@ != own ==> spec_lock_state(
            key,
            objects[(ObjectKind::Lock, id@)],
        ) is Some
}

/// In the store in memory, where the other locks can be read, the check
/// of a lock succeeds exactly where every other lock admits it, and fails
/// with `LockConflict` where one does not.
pub proof fn lemma_check_locks(
    backend: MemoryBackend,
    key: Key,
    own: Id,
    state: LockState,
    checked: Result<(), RepoError>,
)
    requires
        call_ensures(check_locks::<MemoryBackend>, (&backend, &key, &own, &state), checked),
        spec_readable(backend.objects(), key, own@),
    ensures
        checked is Ok <==> spec_admitted(backend.objects(), key, own@, state),
        checked is Err ==> checked == Err::<(), RepoError>(RepoError::LockConflict)
            && spec_conflicts(backend.objects(), key, own@, state),
{
    let objects = backend.objects();
    let listed = choose|listed: Result<Vec<Id>, BackendError>| #[trigger]
        call_ensures(MemoryBackend::iter, (&backend, ObjectKind::Lock), listed) && spec_checked(
            &backend,
            &key,
            &own,
            state,
            listed,
            checked,
        );
    assert(listed is Ok);
    let ids = listed->Ok_0;
    assert(spec_lists(ids@, objects, ObjectKind::Lock));
    let read = choose|read: Result<Vec<(Id, Option<LockState>)>, BackendError>| #[trigger]
        call_ensures(read_locks::<MemoryBackend>, (&backend, &key, &ids, &own), read)
            && match read {
            Err(e) => checked == Err::<(), RepoError>(RepoError::Backend(e)),
            Ok(held) => checked == spec_decide(held@, own@, state),
        };
    lemma_read_locks(backend, key, ids, own, read);
    let held = read->Ok_0;
    lemma_decide(held@, own@, state);
    if spec_admitted(objects, key, own@, state) {
        assert forall|i: int| 0 <= i < held@.len() implies spec_lets_pass(
            #[trigger] held@[i],
            own@,
            state,
        ) by {
            assert(held@[i].0 == ids@[i]);
            if ids@[i]@ != own@ {
                assert(objects.contains_key((ObjectKind::Lock, ids@[i]@)));
            }
        }
    }
    if checked is Err {
        if !(checked == Err::<(), RepoError>(RepoError::LockConflict)) {
            lemma_unread_decides(held@, own@, state);
            let j = choose|j: int|
                0 <= j < held@.len() && (#[trigger] held@[j]).0@ != own@ && held@[j].1 is None;
            assert(held@[j].0 == ids@[j]);
            assert(objects.contains_key((ObjectKind::Lock, ids@[j]@)));
        }
    }
}

/// Where the decision is that a lock is malformed, the state of a lock
/// other than the own one could not be read.
pub proof fn lemma_unread_decides(held: Seq<(Id, Option<LockState>)>, own: Seq<u8>, state: LockState)
    requires
        spec_decide(held, own, state) is Err,
        spec_decide(held, own, state) != Err::<(), RepoError>(RepoError::LockConflict),
    ensures
        exists|j: int| 0 <= j < held.len() && (#[trigger] held[j]).0@ != own && held[j].1 is None,
    decreases held.len(),
{
    if held.len() > 0 {
        let rest = held.skip(1);
        if spec_lets_pass(held[0], own, state) {
            lemma_unread_decides(rest, own, state);
            let j = choose|j: int|
                0 <= j < rest.len() && (#[trigger] rest[j]).0@ != own && rest[j].1 is None;
            assert(held[j + 1] == rest[j]);
        } else {
            assert(held[0].0@ != own && held[0].1 is None);
        }
    }
}

/// In the store in memory a lock that has been written stays where every
/// other lock admits it, and is removed again, with `LockConflict`, where
/// one does not.
pub proof fn lemma_settle(
    before: MemoryBackend,
    after: MemoryBackend,
    key: Key,
    own: Id,
    state: LockState,
    settled: Result<(), RepoError>,
)
    requires
        exists|n: &mut MemoryBackend| #[trigger]
            call_ensures(settle_lock::<MemoryBackend>, (n, &key, &own, &state), settled) && *n
                == before && *final(n) == after,
        before.objects().contains_key((ObjectKind::Lock, own@)),
        spec_readable(before.objects(), key, own@),
    ensures
        settled is Ok <==> spec_admitted(before.objects(), key, own@, state),
        settled is Ok ==> after == before,
        settled is Err ==> settled == Err::<(), RepoError>(RepoError::LockConflict)
            && after.objects() == before.objects().remove((ObjectKind::Lock, own@)),
{
    let n = choose|n: &mut MemoryBackend| #[trigger]
        call_ensures(settle_lock::<MemoryBackend>, (n, &key, &own, &state), settled) && *n == before
            && *final(n) == after;
    let checked = choose|checked: Result<(), RepoError>| #[trigger]
        call_ensures(check_locks::<MemoryBackend>, (&before, &key, &own, &state), checked)
            && match checked {
            Ok(_) => settled is Ok && after == before,
            Err(cause) => exists|m: &mut MemoryBackend, gone: Result<(), BackendError>| #[trigger]
                call_ensures(MemoryBackend::remove, (m, ObjectKind::Lock, &own), gone) && *m
                    == before && *final(m) == after && match gone {
                    Ok(_) => settled == Err::<(), RepoError>(cause),
                    Err(e) => settled == Err::<(), RepoError>(RepoError::Backend(e)),
                },
        };
    lemma_check_locks(before, key, own, state, checked);
}

/// In the store in memory a record that the forward path takes is stored.
pub proof fn lemma_store<V: RepoObject>(
    before: MemoryBackend,
    after: MemoryBackend,
    opts: ProcessOptions,
    key: Key,
    kind: ObjectKind,
    id: Id,
    record: V,
    stored: Result<(), RepoError>,
)
    requires
        exists|m: &mut MemoryBackend| #[trigger]
            call_ensures(store::<MemoryBackend, V>, (m, &opts, &key, kind, &id, &record), stored)
                && *m == before && *final(m) == after,
        spec_forward_error(opts, spec_record(record.spec_fields())) is None,
    ensures
        stored is Ok,
{
}

/// In the store in memory a lock whose record the forward path takes, and
/// under whose identifier nothing is stored, is written.
pub proof fn lemma_place(
    before: MemoryBackend,
    after: MemoryBackend,
    key: Key,
    process: ProcessOptions,
    lock: Lock,
    placed: Result<Id, RepoError>,
)
    requires
        exists|m: &mut MemoryBackend| #[trigger]
            call_ensures(place_lock::<MemoryBackend>, (m, &key, &process, &lock), placed) && *m
                == before && *final(m) == after,
        !before.objects().contains_key((ObjectKind::Lock, spec_lock_id(key, lock))),
        spec_forward_error(process, spec_record(lock.spec_fields())) is None,
    ensures
        placed matches Ok(lock_id) && lock_id@ == spec_lock_id(key, lock) && after.objects()
            == before.objects().insert(
            (ObjectKind::Lock, lock_id@),
            after.objects()[(ObjectKind::Lock, lock_id@)],
        ) && spec_lock_state(key, after.objects()[(ObjectKind::Lock, lock_id@)]) == Some(
            lock.state,
        ),
{
    let m = choose|m: &mut MemoryBackend| #[trigger]
        call_ensures(place_lock::<MemoryBackend>, (m, &key, &process, &lock), placed) && *m
            == before && *final(m) == after;
    let (lock_id, there) = choose|lock_id: Id, there: Result<(), BackendError>| #[trigger]
        call_ensures(MemoryBackend::contains, (&before, ObjectKind::Lock, &lock_id), there)
            && lock_id@ == spec_lock_id(key, lock) && match there {
            Ok(_) => placed == Err::<Id, RepoError>(RepoError::LockConflict) && after == before,
            Err(BackendError::NotFound) => exists|
                w: &mut MemoryBackend,
                stored: Result<(), RepoError>,
            | #[trigger]
                call_ensures(
                    store::<MemoryBackend, Lock>,
                    (w, &process, &key, ObjectKind::Lock, &lock_id, &lock),
                    stored,
                ) && *w == before && *final(w) == after && match stored {
                    Ok(_) => placed == Ok::<Id, RepoError>(lock_id),
                    Err(e) => placed == Err::<Id, RepoError>(e),
                },
            Err(e) => placed == Err::<Id, RepoError>(RepoError::Backend(e)) && after == before,
        };
    assert(there == Err::<(), BackendError>(BackendError::NotFound));
    let (w, stored) = choose|w: &mut MemoryBackend, stored: Result<(), RepoError>| #[trigger]
        call_ensures(
            store::<MemoryBackend, Lock>,
            (w, &process, &key, ObjectKind::Lock, &lock_id, &lock),
            stored,
        ) && *w == before && *final(w) == after && match stored {
            Ok(_) => placed == Ok::<Id, RepoError>(lock_id),
            Err(e) => placed == Err::<Id, RepoError>(e),
        };
    lemma_store(before, after, process, key, ObjectKind::Lock, lock_id, lock, stored);
}

/// In the store in memory a record that is stored, and comes out of the
/// backward path as a record of its type, is read.
pub proof fn lemma_load<V: RepoObject>(
    backend: MemoryBackend,
    key: Key,
    kind: ObjectKind,
    id: Id,
    r: Result<V, RepoError>,
)
    requires
        call_ensures(load::<MemoryBackend, V>, (&backend, &key, kind, &id), r),
        backend.objects().contains_key((kind, id@)),
        spec_stored_fields(key, backend.objects()[(kind, id@)]) matches Ok(fs) && V::spec_is_fields(
            fs,
        ),
    ensures
        r matches Ok(record) && spec_stored_fields(key, backend.objects()[(kind, id@)]) == Ok::<
            Seq<FieldView>,
            PipelineError,
        >(record.spec_fields()),
{
    let answer = choose|answer: Result<Vec<u8>, BackendError>| #[trigger]
        call_ensures(read_to_end::<MemoryBackend>, (&backend, kind, &id), answer) && spec_loaded(
            key,
            answer,
            r,
        );
    lemma_read_whole(backend, kind, id, answer);
}

/// Whether a session can ask for `lock` in the store as it is: the
/// configuration `config` is stored and comes out of the backward path
/// under `key`, the forward path with its algorithms takes the record of
/// the lock, no lock of the same record is stored, and the state of every
/// stored lock can be read.
pub open spec fn spec_can_ask(objects: Objects, key: Key, config: Config, lock: Lock) -> bool {
    &&& objects.contains_key((ObjectKind::Config, Id::spec_zero()@))
    &&& spec_stored_fields(key, objects[(ObjectKind::Config, Id::spec_zero()@)]) == Ok::<
        Seq<FieldView>,
        PipelineError,
    >(config.spec_fields())
    &&& spec_forward_error(config.process, spec_record(lock.spec_fields())) is None
    &&& !objects.contains_key((ObjectKind::Lock, spec_lock_id(key, lock)))
    &&& spec_readable(objects, key, spec_lock_id(key, lock))
}

/// The last step of locking in the store in memory: a lock that has been
/// written is granted exactly where every lock that was there admits it;
/// else the answer is `LockConflict`, and the objects are as they were.
#[verifier::rlimit(50)]
pub proof fn lemma_lock_settled(
    objects: Objects,
    with_lock: MemoryBackend,
    key: Key,
    lock_id: Id,
    state: LockState,
    r: Result<LockedRepo<MemoryBackend>, (DecryptedRepo<MemoryBackend>, RepoError)>,
)
    requires
        exists|n: &mut MemoryBackend, settled: Result<(), RepoError>| #[trigger]
            call_ensures(settle_lock::<MemoryBackend>, (n, &key, &lock_id, &state), settled) && *n
                == with_lock && match settled {
                Ok(_) => r is Ok,
                Err(e) => r matches Err((back, err)) && err == e && back.spec_backend() == *final(n),
            },
        !objects.contains_key((ObjectKind::Lock, lock_id@)),
        with_lock.objects() == objects.insert(
            (ObjectKind::Lock, lock_id@),
            with_lock.objects()[(ObjectKind::Lock, lock_id@)],
        ),
        spec_readable(objects, key, lock_id@),
    ensures
        r is Ok <==> spec_admitted(objects, key, lock_id@, state),
        r matches Err((back, e)) ==> e == RepoError::LockConflict && back.objects() == objects,
{
    let own = lock_id@;
    let (n, settled) = choose|n: &mut MemoryBackend, settled: Result<(), RepoError>| #[trigger]
        call_ensures(settle_lock::<MemoryBackend>, (n, &key, &lock_id, &state), settled) && *n
            == with_lock && match settled {
            Ok(_) => r is Ok,
            Err(e) => r matches Err((back, err)) && err == e && back.spec_backend() == *final(n),
        };
    let after = *final(n);
    let now = with_lock.objects();
    assert(now.contains_key((ObjectKind::Lock, own)));
    assert forall|id: Id| #[trigger]
        now.contains_key((ObjectKind::Lock, id@)) && id@ != own implies objects.contains_key(
        (ObjectKind::Lock, id@),
    ) && now[(ObjectKind::Lock, id@)] == objects[(ObjectKind::Lock, id@)] by {}
    assert(spec_readable(now, key, own));
    lemma_settle(with_lock, after, key, lock_id, state, settled);
    assert(spec_admitted(now, key, own, state) <==> spec_admitted(objects, key, own, state)) by {
        if spec_admitted(now, key, own, state) {
            assert forall|id: Id| #[trigger]
                objects.contains_key((ObjectKind::Lock, id@)) && id@ != own implies (
            spec_lock_state(key, objects[(ObjectKind::Lock, id@)]) matches Some(h)
                && h.spec_compatible(state)) by {
                assert(now.contains_key((ObjectKind::Lock, id@)));
            }
        }
    }
    assert(now.remove((ObjectKind::Lock, own)) =~= objects);
}

/// The configuration that is read names the algorithms on which the
/// forward path depends as the configuration with the same fields does.
pub proof fn lemma_same_forward(found: Config, config: Config, bytes: Seq<u8>)
    requires
        found.spec_fields() == config.spec_fields(),
    ensures
        spec_forward_error(found.process, bytes) == spec_forward_error(config.process, bytes),
{
    assert(found.spec_fields()[7] == config.spec_fields()[7]);
    assert(found.spec_fields()[8] == config.spec_fields()[8]);
    assert(found.process.compression == config.process.compression);
    assert(found.process.encryption == config.process.encryption);
}

/// The law of locking in the store in memory: a session that can ask for
/// a lock gets it exactly where every stored lock admits it. Where one
/// does not, the answer is `LockConflict`, and the objects are as they
/// were.
#[verifier::rlimit(100)]
#[verifier::spinoff_prover]
pub proof fn lemma_lock(
    repo: DecryptedRepo<MemoryBackend>,
    marker: LockMarker,
    meta: LockMeta,
    r: Result<LockedRepo<MemoryBackend>, (DecryptedRepo<MemoryBackend>, RepoError)>,
    config: Config,
)
    requires
        call_ensures(DecryptedRepo::<MemoryBackend>::lock, (repo, marker, meta), r),
        spec_can_ask(repo.objects(), repo.spec_key(), config, Lock { meta, state: marker.state }),
    ensures
        r is Ok <==> spec_admitted(
            repo.objects(),
            repo.spec_key(),
            spec_lock_id(repo.spec_key(), Lock { meta, state: marker.state }),
            marker.state,
        ),
        r matches Err((back, e)) ==> e == RepoError::LockConflict && back.objects()
            == repo.objects(),
{
    let key = repo.spec_key();
    let lock = Lock { meta, state: marker.state };
    let before = repo.spec_backend();
    let objects = repo.objects();
    let read = choose|read: Result<Config, RepoError>| #[trigger]
        call_ensures(DecryptedRepo::<MemoryBackend>::read_config, (&repo,), read) && match read {
            Err(e) => r matches Err((back, err)) && err == e && back.spec_backend() == before,
            Ok(found) => exists|m: &mut MemoryBackend, placed: Result<Id, RepoError>| #[trigger]
                call_ensures(place_lock::<MemoryBackend>, (m, &key, &found.process, &lock), placed)
                    && *m == before && match placed {
                    Err(e) => r matches Err((back, err)) && err == e && back.spec_backend()
                        == *final(m),
                    Ok(lock_id) => exists|n: &mut MemoryBackend, settled: Result<(), RepoError>| #[trigger]
                        call_ensures(
                            settle_lock::<MemoryBackend>,
                            (n, &key, &lock_id, &marker.state),
                            settled,
                        ) && *n == *final(m) && match settled {
                            Ok(_) => r matches Ok(locked) && locked.spec_backend() == *final(n)
                                && locked.spec_lock_id() == lock_id && locked.spec_config()
                                == found,
                            Err(e) => r matches Err((back, err)) && err == e
                                && back.spec_backend() == *final(n),
                        },
                },
        };
    config.lemma_fields_valid();
    lemma_load::<Config>(before, key, ObjectKind::Config, Id::spec_zero(), read);
    let found = read->Ok_0;
    lemma_same_forward(found, config, spec_record(lock.spec_fields()));
    let (m, placed) = choose|m: &mut MemoryBackend, placed: Result<Id, RepoError>| #[trigger]
        call_ensures(place_lock::<MemoryBackend>, (m, &key, &found.process, &lock), placed) && *m
            == before && match placed {
            Err(e) => r matches Err((back, err)) && err == e && back.spec_backend() == *final(m),
            Ok(lock_id) => exists|n: &mut MemoryBackend, settled: Result<(), RepoError>| #[trigger]
                call_ensures(
                    settle_lock::<MemoryBackend>,
                    (n, &key, &lock_id, &marker.state),
                    settled,
                ) && *n == *final(m) && match settled {
                    Ok(_) => r matches Ok(locked) && locked.spec_backend() == *final(n)
                        && locked.spec_lock_id() == lock_id && locked.spec_config() == found,
                    Err(e) => r matches Err((back, err)) && err == e && back.spec_backend()
                        == *final(n),
                },
        };
    let with_lock = *final(m);
    lemma_place(before, with_lock, key, found.process, lock, placed);
    let lock_id = placed->Ok_0;
    lemma_lock_settled(objects, with_lock, key, lock_id, marker.state, r);
}

/// Beside one lock that is held, in the store in memory: the request is
/// granted exactly where the table admits the two states on every kind,
/// and refused with `LockConflict`, the objects as they were, otherwise.
pub proof fn lemma_lock_beside_one(
    repo: DecryptedRepo<MemoryBackend>,
    marker: LockMarker,
    meta: LockMeta,
    r: Result<LockedRepo<MemoryBackend>, (DecryptedRepo<MemoryBackend>, RepoError)>,
    config: Config,
    held_id: Id,
    held: LockState,
)
    requires
        call_ensures(DecryptedRepo::<MemoryBackend>::lock, (repo, marker, meta), r),
        crate::repo::spec_one_lock(repo.objects(), repo.spec_key(), held_id, held),
        spec_can_ask(repo.objects(), repo.spec_key(), config, Lock { meta, state: marker.state }),
    ensures
        r is Ok <==> held.spec_compatible(marker.state),
        held.spec_compatible(marker.state) <==> (forall|kind: ObjectKind|
            crate::obj::lock::spec_admits(
                #[trigger] held.spec_access(kind),
                marker.state.spec_access(kind),
            )),
        r matches Err((back, e)) ==> e == RepoError::LockConflict && back.objects()
            == repo.objects(),
{
    lemma_lock(repo, marker, meta, r, config);
    crate::repo::lemma_one_lock_decides(
        repo.objects(),
        repo.spec_key(),
        held_id,
        held,
        Lock { meta, state: marker.state },
    );
}

/// Where no lock is held, in the store in memory, a session that can ask
/// for a lock gets it: so does the one that asks again after the holder
/// has gone.
pub proof fn lemma_lock_alone(
    repo: DecryptedRepo<MemoryBackend>,
    marker: LockMarker,
    meta: LockMeta,
    r: Result<LockedRepo<MemoryBackend>, (DecryptedRepo<MemoryBackend>, RepoError)>,
    config: Config,
)
    requires
        call_ensures(DecryptedRepo::<MemoryBackend>::lock, (repo, marker, meta), r),
        forall|id: Id| !repo.objects().contains_key((ObjectKind::Lock, #[trigger] id@)),
        spec_can_ask(repo.objects(), repo.spec_key(), config, Lock { meta, state: marker.state }),
    ensures
        r is Ok,
{
    lemma_lock(repo, marker, meta, r, config);
}

/// In the store in memory, the password that unwraps the stored key takes
/// it: the session holds that key, under its identifier, over the same
/// store.
pub proof fn lemma_decrypt(
    repo: Repo<MemoryBackend>,
    key_id: Id,
    password: &[u8],
    r: Result<DecryptedRepo<MemoryBackend>, (Repo<MemoryBackend>, RepoError)>,
)
    requires
        call_ensures(Repo::<MemoryBackend>::decrypt, (repo, key_id, password), r),
        spec_unwraps(repo.objects(), key_id, password@) is Ok,
    ensures
        r matches Ok(session) && session.spec_backend() == repo.spec_backend()
            && session.spec_key_id() == key_id && spec_unwraps(repo.objects(), key_id, password@)
            == Ok::<Seq<FieldView>, KeyError>(session.spec_key().spec_key_fields()),
{
    let read = choose|read: Result<EncryptedKey, RepoError>| #[trigger]
        call_ensures(read_wrapped::<MemoryBackend>, (&repo.spec_backend(), &key_id), read)
            && spec_taken(
            read,
            |wrapped: EncryptedKey| wrapped.spec_unwrap(password@),
            Repo::<MemoryBackend>::spec_outcome(r),
        );
    let whole = choose|whole: Result<Vec<u8>, BackendError>| #[trigger]
        call_ensures(
            read_to_end::<MemoryBackend>,
            (&repo.spec_backend(), ObjectKind::Key, &key_id),
            whole,
        ) && spec_read_wrapped(whole, read);
    lemma_read_whole(repo.spec_backend(), ObjectKind::Key, key_id, whole);
    let wrapped = read->Ok_0;
    wrapped.lemma_unwrap_fields();
}

/// In the store in memory, the end of a session removes its lock: the
/// objects are those that were there, without the lock.
pub proof fn lemma_unlock(
    locked: LockedRepo<MemoryBackend>,
    r: (DecryptedRepo<MemoryBackend>, Result<(), RepoError>),
)
    requires
        call_ensures(LockedRepo::<MemoryBackend>::unlock, (locked,), r),
        locked.objects().contains_key((ObjectKind::Lock, locked.spec_lock_id()@)),
    ensures
        r.1 is Ok,
        r.0.objects() == locked.objects().remove((ObjectKind::Lock, locked.spec_lock_id()@)),
{
}

} // verus!
