//! Finding the key of a repository: by the identifier that the caller
//! names or among all keys, with a password or without.

use vstd::prelude::*;
use vstd::string::StringSliceAdditionalSpecFns;
use crate::backend::ext::{find_id, spec_found, spec_search, Find};
use crate::backend::{BackendError, BackendRead, BackendWrite, Objects};
use crate::id::Id;
use crate::obj::key::KeyError;
use crate::obj::ObjectKind;
use crate::opts::IdOpt;
use crate::process::format::FieldView;
use crate::repo::{spec_reads_unencrypted, spec_unwraps, DecryptedRepo, Repo, RepoError};

verus! {

/// Why the text that a caller gave names no object.
#[derive(Debug, Clone, Copy, PartialEq, Eq, Hash, Structural)]
pub enum ResolveError {
    /// No identifier begins with the text.
    NotFound,
    /// Several identifiers begin with the text.
    NonUnique,
    /// The backend failed.
    Backend(crate::backend::BackendError),
}

/// What a search must have found for the text to name an object.
pub fn settle(found: Find) -> (r: Result<Id, ResolveError>)
    ensures
        match found {
            Find::Absent => r == Err::<Id, ResolveError>(ResolveError::NotFound),
            Find::Unique(id) => r == Ok::<Id, ResolveError>(id),
            Find::NonUnique => r == Err::<Id, ResolveError>(ResolveError::NonUnique),
        },
{
    match found {
        Find::Absent => Err(ResolveError::NotFound),
        Find::Unique(id) => Ok(id),
        Find::NonUnique => Err(ResolveError::NonUnique),
    }
}

/// What a search that the backend answered says of the text: the object
/// that it names, or why it names none.
pub open spec fn spec_settled(answer: Result<Find, BackendError>) -> Result<Id, ResolveError> {
    match answer {
        Err(e) => Err(ResolveError::Backend(e)),
        Ok(Find::Absent) => Err(ResolveError::NotFound),
        Ok(Find::Unique(id)) => Ok(id),
        Ok(Find::NonUnique) => Err(ResolveError::NonUnique),
    }
}

/// The object of `kind` that the text names: the identifier itself where
/// the text is a whole one, and then the backend is not asked; else the
/// one object whose identifier begins with the text, as the search of the
/// backend says.
pub fn resolve_id<B: BackendRead>(backend: &B, kind: ObjectKind, id: &IdOpt) -> (r: Result<
    Id,
    ResolveError,
>)
    ensures
        crate::id::spec_parse_hex(vstd::utf8::encode_utf8(id.id@)) is None ==> exists|
            answer: Result<Find, BackendError>,
        | #[trigger]
            spec_search(backend, kind, vstd::utf8::encode_utf8(id.id@), answer) && r
                == spec_settled(answer),
        crate::id::spec_parse_hex(vstd::utf8::encode_utf8(id.id@)) matches Some(bytes) ==> (
        r matches Ok(whole) && whole@ == bytes),
        crate::id::spec_parse_hex(vstd::utf8::encode_utf8(id.id@)) is None ==> match r {
            Ok(found) => spec_found(
                Find::Unique(found),
                backend.objects(),
                kind,
                vstd::utf8::encode_utf8(id.id@),
            ),
            Err(ResolveError::NotFound) => spec_found(
                Find::Absent,
                backend.objects(),
                kind,
                vstd::utf8::encode_utf8(id.id@),
            ),
            Err(ResolveError::NonUnique) => spec_found(
                Find::NonUnique,
                backend.objects(),
                kind,
                vstd::utf8::encode_utf8(id.id@),
            ),
            Err(ResolveError::Backend(_)) => true,
        },
{
    match id.to_id() {
        Some(whole) => Ok(whole),
        None => {
            let answer = find_id(backend, kind, id.as_str());
            assert(spec_search(backend, kind, vstd::utf8::encode_utf8(id.id@), answer));
            match answer {
                Ok(found) => settle(found),
                Err(e) => Err(ResolveError::Backend(e)),
            }
        },
    }
}

/// The key that the text names: the one key whose identifier begins with
/// the text, as the search of the backend says.
pub fn get_key_id<B: BackendWrite>(repo: &Repo<B>, key: &str) -> (r: Result<Id, ResolveError>)
    ensures
        exists|answer: Result<Find, BackendError>| #[trigger]
            spec_search(&repo.spec_backend(), ObjectKind::Key, key.spec_bytes(), answer) && r
                == spec_settled(answer),
        match r {
            Ok(found) => spec_found(
                Find::Unique(found),
                repo.objects(),
                ObjectKind::Key,
                key.spec_bytes(),
            ),
            Err(ResolveError::NotFound) => spec_found(
                Find::Absent,
                repo.objects(),
                ObjectKind::Key,
                key.spec_bytes(),
            ),
            Err(ResolveError::NonUnique) => spec_found(
                Find::NonUnique,
                repo.objects(),
                ObjectKind::Key,
                key.spec_bytes(),
            ),
            Err(ResolveError::Backend(_)) => true,
        },
{
    match repo.find_key_id(key) {
        Ok(found) => settle(found),
        Err(RepoError::Backend(e)) => Err(ResolveError::Backend(e)),
        Err(_) => Err(ResolveError::Backend(crate::backend::BackendError::Io)),
    }
}

/// Why a repository could not be unlocked.
#[derive(Debug, Clone, Copy, PartialEq, Eq, Hash, Structural)]
pub enum UnlockError {
    /// The text that names the key names none, or several.
    Resolve(ResolveError),
    /// The key could not be taken.
    Repo(RepoError),
    /// No key of the repository can be taken as it is.
    NoKey,
}

/// What unlocking makes of what taking a key gave: the session, or the
/// repository with the error.
pub open spec fn spec_unlocked<B: BackendWrite>(
    taken: Result<DecryptedRepo<B>, (Repo<B>, RepoError)>,
) -> Result<DecryptedRepo<B>, (Repo<B>, UnlockError)> {
    match taken {
        Ok(unlocked) => Ok(unlocked),
        Err((back, e)) => Err((back, UnlockError::Repo(e))),
    }
}

/// Whether [`Repo::try_unencrypted`] has been tried on the key under `id`,
/// and gave neither the key nor an error of the backend.
pub open spec fn spec_not_plain<B: BackendWrite>(repo: Repo<B>, id: Id) -> bool {
    exists|tried: Result<DecryptedRepo<B>, (Repo<B>, RepoError)>| #[trigger]
        call_ensures(Repo::<B>::try_unencrypted, (repo, id), tried) && (tried matches Err((_, e))
            && !(e is Backend))
}

/// Whether none of the first `n` of `ids` is a key that can be taken as it
/// is stored.
pub open spec fn spec_none_plain<B: BackendWrite>(repo: Repo<B>, ids: Seq<Id>, n: int) -> bool {
    forall|j: int| 0 <= j < n ==> spec_not_plain(repo, #[trigger] ids[j])
}

/// Unlocks the repository: with the key that `key` names or, where it names
/// none, with the first key that can be taken; with `password` or, where
/// there is none, taking the key as it is stored.
pub fn try_unlock<B: BackendWrite>(repo: Repo<B>, key: Option<&str>, password: Option<&[u8]>) -> (r:
    Result<DecryptedRepo<B>, (Repo<B>, UnlockError)>)
    ensures
        match password {
            Some(given) => call_ensures(try_unlock_encrypted::<B>, (repo, key, given), r),
            None => call_ensures(try_unlock_unencrypted::<B>, (repo, key), r),
        },
        match r {
            Ok(unlocked) => unlocked.spec_backend() == repo.spec_backend() && match password {
                Some(password) => spec_unwraps(repo.objects(), unlocked.spec_key_id(), password@)
                    == Ok::<Seq<FieldView>, KeyError>(unlocked.spec_key().spec_key_fields()),
                None => spec_reads_unencrypted(repo.objects(), unlocked.spec_key_id()) == Ok::<
                    Seq<FieldView>,
                    KeyError,
                >(unlocked.spec_key().spec_key_fields()),
            },
            Err((back, e)) => back.spec_backend() == repo.spec_backend() && spec_explains(
                e,
                repo.objects(),
                key,
            ),
        },
{
    match password {
        Some(password) => try_unlock_encrypted(repo, key, password),
        None => try_unlock_unencrypted(repo, key),
    }
}

/// Unlocks the repository with `password`: with the key that `key` names,
/// by [`get_key_id`] and [`Repo::decrypt`], or, where it names none, by
/// [`Repo::unlock`].
pub fn try_unlock_encrypted<B: BackendWrite>(repo: Repo<B>, key: Option<&str>, password: &[u8]) -> (r:
    Result<DecryptedRepo<B>, (Repo<B>, UnlockError)>)
    ensures
        match key {
            Some(name) => exists|named: Result<Id, ResolveError>| #[trigger]
                call_ensures(get_key_id::<B>, (&repo, name), named) && match named {
                    Err(e) => r matches Err((back, err)) && back == repo && err
                        == UnlockError::Resolve(e),
                    Ok(key_id) => exists|taken: Result<DecryptedRepo<B>, (Repo<B>, RepoError)>| #[trigger]
                        call_ensures(Repo::<B>::decrypt, (repo, key_id, password), taken) && r
                            == spec_unlocked(taken),
                },
            None => exists|taken: Result<DecryptedRepo<B>, (Repo<B>, RepoError)>| #[trigger]
                call_ensures(Repo::<B>::unlock, (repo, password), taken) && r == spec_unlocked(
                    taken,
                ),
        },
        match r {
            Ok(unlocked) => unlocked.spec_backend() == repo.spec_backend() && spec_unwraps(
                repo.objects(),
                unlocked.spec_key_id(),
                password@,
            ) == Ok::<Seq<FieldView>, KeyError>(unlocked.spec_key().spec_key_fields()),
            Err((back, e)) => back.spec_backend() == repo.spec_backend() && spec_explains(
                e,
                repo.objects(),
                key,
            ) && (e == UnlockError::Repo(RepoError::PasswordMismatch) && key is None
                ==> forall|id: Id| #[trigger]
                repo.objects().contains_key((ObjectKind::Key, id@)) ==> spec_unwraps(
                    repo.objects(),
                    id,
                    password@,
                ) is Err),
        },
{
    match key {
        Some(key) => {
            let key_id = match get_key_id(&repo, key) {
                Ok(key_id) => key_id,
                Err(e) => {
                    return Err((repo, UnlockError::Resolve(e)));
                },
            };
            match repo.decrypt(key_id, password) {
                Ok(unlocked) => Ok(unlocked),
                Err((back, e)) => Err((back, UnlockError::Repo(e))),
            }
        },
        None => match repo.unlock(password) {
            Ok(unlocked) => Ok(unlocked),
            Err((back, e)) => Err((back, UnlockError::Repo(e))),
        },
    }
}

/// Unlocks the repository without a password: takes the key as it is
/// stored. Where no key is named, the first key that can be taken so is
/// taken, and `NoKey` says that none can.
pub fn try_unlock_unencrypted<B: BackendWrite>(repo: Repo<B>, key: Option<&str>) -> (r: Result<
    DecryptedRepo<B>,
    (Repo<B>, UnlockError),
>)
    ensures
        match key {
            Some(name) => exists|named: Result<Id, ResolveError>| #[trigger]
                call_ensures(get_key_id::<B>, (&repo, name), named) && match named {
                    Err(e) => r matches Err((back, err)) && back == repo && err
                        == UnlockError::Resolve(e),
                    Ok(key_id) => exists|taken: Result<DecryptedRepo<B>, (Repo<B>, RepoError)>| #[trigger]
                        call_ensures(Repo::<B>::try_unencrypted, (repo, key_id), taken) && r
                            == spec_unlocked(taken),
                },
            None => exists|listed: Result<Vec<Id>, RepoError>| #[trigger]
                call_ensures(Repo::<B>::keys, (&repo,), listed) && match listed {
                    Err(e) => r matches Err((back, err)) && back == repo && err
                        == UnlockError::Repo(e),
                    Ok(ids) => exists|n: int|
                        0 <= n <= ids@.len() && #[trigger] spec_none_plain(repo, ids@, n) && if n
                            == ids@.len() {
                            r matches Err((_, e)) && e == UnlockError::NoKey
                        } else {
                            exists|taken: Result<DecryptedRepo<B>, (Repo<B>, RepoError)>| #[trigger]
                                call_ensures(Repo::<B>::try_unencrypted, (repo, ids@[n]), taken)
                                    && (taken is Ok || (taken matches Err((_, e)) && e is Backend))
                                    && r == spec_unlocked(taken)
                        },
                },
        },
        match r {
            Ok(unlocked) => unlocked.spec_backend() == repo.spec_backend()
                && spec_reads_unencrypted(repo.objects(), unlocked.spec_key_id()) == Ok::<
                Seq<FieldView>,
                KeyError,
            >(unlocked.spec_key().spec_key_fields()),
            Err((back, e)) => back.spec_backend() == repo.spec_backend() && spec_explains(
                e,
                repo.objects(),
                key,
            ) && (e == UnlockError::NoKey ==> key is None && forall|id: Id| #[trigger]
                repo.objects().contains_key((ObjectKind::Key, id@)) ==> spec_reads_unencrypted(
                    repo.objects(),
                    id,
                ) is Err),
        },
{
    match key {
        Some(key) => {
            let key_id = match get_key_id(&repo, key) {
                Ok(key_id) => key_id,
                Err(e) => {
                    return Err((repo, UnlockError::Resolve(e)));
                },
            };
            match repo.try_unencrypted(key_id) {
                Ok(unlocked) => Ok(unlocked),
                Err((back, e)) => Err((back, UnlockError::Repo(e))),
            }
        },
        None => {
            let listed = repo.keys();
            let ids = match listed {
                Ok(ids) => ids,
                Err(e) => {
                    return Err((repo, UnlockError::Repo(e)));
                },
            };
            let mut current = repo;
            let mut i: usize = 0;
            while i < ids.len()
                invariant
                    i <= ids@.len(),
                    key is None,
                    current == repo,
                    listed == Ok::<Vec<Id>, RepoError>(ids),
                    call_ensures(Repo::<B>::keys, (&repo,), listed),
                    spec_none_plain(repo, ids@, i as int),
                    forall|j: int|
                        0 <= j < i ==> spec_reads_unencrypted(repo.objects(), #[trigger] ids@[j])
                            is Err,
                decreases ids@.len() - i,
            {
                let taken = current.try_unencrypted(ids[i]);
                match taken {
                    Ok(unlocked) => {
                        return Ok(unlocked);
                    },
                    Err((back, e)) => {
                        match e {
                            RepoError::Backend(b) => {
                                return Err((back, UnlockError::Repo(RepoError::Backend(b))));
                            },
                            _ => {},
                        }
                        current = back;
                    },
                }
                i = i + 1;
            }
            proof {
                assert forall|id: Id| #[trigger]
                    repo.objects().contains_key(
                        (ObjectKind::Key, id@),
                    ) implies spec_reads_unencrypted(repo.objects(), id) is Err by {
                    let j = choose|j: int| 0 <= j < ids@.len() && (#[trigger] ids@[j])@ == id@;
                    assert(spec_reads_unencrypted(repo.objects(), ids@[j]) is Err);
                    assert(spec_reads_unencrypted(repo.objects(), id) == spec_reads_unencrypted(
                        repo.objects(),
                        ids@[j],
                    ));
                }
            }
            Err((current, UnlockError::NoKey))
        },
    }
}

/// Whether the error is one that the objects and the name of the key
/// account for: a name that names no key or several is said to do so only
/// where that is the case.
pub open spec fn spec_explains(e: UnlockError, objects: Objects, key: Option<&str>) -> bool {
    match e {
        UnlockError::Resolve(ResolveError::NotFound) => key matches Some(name) && spec_found(
            Find::Absent,
            objects,
            ObjectKind::Key,
            name.spec_bytes(),
        ),
        UnlockError::Resolve(ResolveError::NonUnique) => key matches Some(name) && spec_found(
            Find::NonUnique,
            objects,
            ObjectKind::Key,
            name.spec_bytes(),
        ),
        UnlockError::Resolve(ResolveError::Backend(_)) => key is Some,
        _ => true,
    }
}

} // verus!
