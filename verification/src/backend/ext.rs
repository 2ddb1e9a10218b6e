//! What every backend offers on top of its own operations: reading an
//! object whole, and finding objects by the beginning of their identifier.

use vstd::prelude::*;
use vstd::string::StringSliceAdditionalSpecFns;
use crate::backend::{spec_lists, BackendError, BackendRead, Objects};
use crate::id::{spec_hex, spec_starts_with, starts_with, Id};
use crate::obj::ObjectKind;

verus! {

/// What a search by the beginning of an identifier found.
#[derive(Debug, Clone, Copy, PartialEq, Eq, Hash)]
pub enum Find {
    /// No identifier begins so.
    Absent,
    /// One identifier begins so: this one.
    Unique(Id),
    /// Several identifiers begin so.
    NonUnique,
}

impl Find {
    pub fn is_none(&self) -> (r: bool)
        ensures
            r == (*self is Absent),
    {
        matches!(self, Find::Absent)
    }

    pub fn is_unique(&self) -> (r: bool)
        ensures
            r == (*self is Unique),
    {
        matches!(self, Find::Unique(_))
    }

    pub fn is_non_unique(&self) -> (r: bool)
        ensures
            r == (*self is NonUnique),
    {
        matches!(self, Find::NonUnique)
    }
}

/// Whether the lowercase hexadecimal form of `id` begins with `prefix`.
pub open spec fn spec_matches(id: Id, prefix: Seq<u8>) -> bool {
    spec_starts_with(spec_hex(id@, false), prefix)
}

/// What the search for `prefix` finds in the listing `ids`, read from the
/// first identifier to the last.
pub open spec fn spec_find(ids: Seq<Id>, prefix: Seq<u8>) -> Find
    decreases ids.len(),
{
    if ids.len() == 0 {
        Find::Absent
    } else {
        let before = spec_find(ids.drop_last(), prefix);
        if spec_matches(ids.last(), prefix) {
            match before {
                Find::Absent => Find::Unique(ids.last()),
                _ => Find::NonUnique,
            }
        } else {
            before
        }
    }
}

/// Whether `find` is the answer to the search for `prefix` among `ids`:
/// `Absent` where no identifier matches, `Unique` with the identifier where
/// exactly one place matches, `NonUnique` where two places match.
pub open spec fn spec_answers(find: Find, ids: Seq<Id>, prefix: Seq<u8>) -> bool {
    match find {
        Find::Absent => forall|j: int| 0 <= j < ids.len() ==> !spec_matches(#[trigger] ids[j], prefix),
        Find::Unique(id) => exists|j: int|
            0 <= j < ids.len() && #[trigger] ids[j] == id && spec_matches(id, prefix) && forall|
                n: int,
            |
                0 <= n < ids.len() && n != j ==> !spec_matches(#[trigger] ids[n], prefix),
        Find::NonUnique => exists|a: int, b: int|
            0 <= a < b < ids.len() && spec_matches(#[trigger] ids[a], prefix) && spec_matches(
                #[trigger] ids[b],
                prefix,
            ),
    }
}

/// The search reads the listing to its end: what it finds is the answer for
/// the whole listing.
pub proof fn lemma_find_answers(ids: Seq<Id>, prefix: Seq<u8>)
    ensures
        spec_answers(spec_find(ids, prefix), ids, prefix),
    decreases ids.len(),
{
    if ids.len() > 0 {
        let front = ids.drop_last();
        let last = ids.last();
        lemma_find_answers(front, prefix);
        let before = spec_find(front, prefix);
        assert(forall|j: int| 0 <= j < front.len() ==> front[j] == ids[j]);
        if spec_matches(last, prefix) {
            match before {
                Find::Absent => {
                    let j = ids.len() - 1;
                    assert(ids[j] == last);
                    assert forall|n: int| 0 <= n < ids.len() && n != j implies !spec_matches(
                        #[trigger] ids[n],
                        prefix,
                    ) by {
                        assert(front[n] == ids[n]);
                    }
                },
                Find::Unique(id) => {
                    let a = choose|j: int|
                        0 <= j < front.len() && #[trigger] front[j] == id && spec_matches(
                            id,
                            prefix,
                        );
                    let b = ids.len() - 1;
                    assert(spec_matches(ids[a], prefix) && spec_matches(ids[b], prefix));
                },
                Find::NonUnique => {
                    let (a, b) = choose|a: int, b: int|
                        0 <= a < b < front.len() && spec_matches(#[trigger] front[a], prefix)
                            && spec_matches(#[trigger] front[b], prefix);
                    assert(spec_matches(ids[a], prefix) && spec_matches(ids[b], prefix));
                },
            }
        } else {
            match before {
                Find::Absent => {
                    assert forall|j: int| 0 <= j < ids.len() implies !spec_matches(
                        #[trigger] ids[j],
                        prefix,
                    ) by {
                        if j < front.len() {
                            assert(front[j] == ids[j]);
                        }
                    }
                },
                Find::Unique(id) => {
                    let j = choose|j: int|
                        0 <= j < front.len() && #[trigger] front[j] == id && spec_matches(
                            id,
                            prefix,
                        ) && forall|n: int|
                            0 <= n < front.len() && n != j ==> !spec_matches(
                                #[trigger] front[n],
                                prefix,
                            );
                    assert(ids[j] == id);
                    assert forall|n: int| 0 <= n < ids.len() && n != j implies !spec_matches(
                        #[trigger] ids[n],
                        prefix,
                    ) by {
                        if n < front.len() {
                            assert(front[n] == ids[n]);
                        }
                    }
                },
                Find::NonUnique => {
                    let (a, b) = choose|a: int, b: int|
                        0 <= a < b < front.len() && spec_matches(#[trigger] front[a], prefix)
                            && spec_matches(#[trigger] front[b], prefix);
                    assert(spec_matches(ids[a], prefix) && spec_matches(ids[b], prefix));
                },
            }
        }
    }
}

/// Once a search has found several identifiers, reading on changes nothing.
pub proof fn lemma_find_stays_non_unique(ids: Seq<Id>, n: int, prefix: Seq<u8>)
    requires
        0 <= n <= ids.len(),
        spec_find(ids.subrange(0, n), prefix) is NonUnique,
    ensures
        spec_find(ids, prefix) is NonUnique,
    decreases ids.len() - n,
{
    if n < ids.len() {
        let next = ids.subrange(0, n + 1);
        assert(next.drop_last() =~= ids.subrange(0, n));
        lemma_find_stays_non_unique(ids, n + 1, prefix);
    } else {
        assert(ids.subrange(0, n) =~= ids);
    }
}

/// Searches the listing `ids` for each of the `prefixes`: the answer at a
/// place is the answer to the prefix at that place.
#[verifier::rlimit(50)]
pub fn find_in(ids: &Vec<Id>, prefixes: &[&str]) -> (result: Vec<Find>)
    ensures
        result@.len() == prefixes@.len(),
        forall|i: int|
            0 <= i < prefixes@.len() ==> #[trigger] result@[i] == spec_find(
                ids@,
                prefixes@[i].spec_bytes(),
            ),
        forall|i: int|
            0 <= i < prefixes@.len() ==> spec_answers(
                #[trigger] result@[i],
                ids@,
                prefixes@[i].spec_bytes(),
            ),
{
    let mut result: Vec<Find> = Vec::new();
    let mut k: usize = 0;
    while k < prefixes.len()
        invariant
            k <= prefixes@.len(),
            result@.len() == k,
            forall|i: int| 0 <= i < k ==> #[trigger] result@[i] == Find::Absent,
        decreases prefixes@.len() - k,
    {
        result.push(Find::Absent);
        k = k + 1;
    }
    if prefixes.len() == 0 {
        return result;
    }
    let mut non_unique_count: usize = 0;
    let mut done: bool = false;
    let mut n: usize = 0;
    assert(ids@.subrange(0, 0) =~= Seq::<Id>::empty());
    while n < ids.len() && !done
        invariant
            n <= ids@.len(),
            result@.len() == prefixes@.len(),
            prefixes@.len() > 0,
            non_unique_count <= prefixes@.len(),
            !done ==> forall|i: int|
                0 <= i < prefixes@.len() ==> #[trigger] result@[i] == spec_find(
                    ids@.subrange(0, n as int),
                    prefixes@[i].spec_bytes(),
                ),
            done ==> forall|i: int|
                0 <= i < prefixes@.len() ==> #[trigger] result@[i] == spec_find(
                    ids@,
                    prefixes@[i].spec_bytes(),
                ),
        decreases ids@.len() - n,
    {
        let id = ids[n];
        let hex = id.to_hex_bytes();
        let ghost seen = ids@.subrange(0, n as int);
        let ghost next = ids@.subrange(0, n + 1);
        assert(next.drop_last() =~= seen);
        assert(next.last() == id);
        let mut i: usize = 0;
        while i < prefixes.len()
            invariant
                i <= prefixes@.len(),
                n < ids@.len(),
                result@.len() == prefixes@.len(),
                non_unique_count <= prefixes@.len(),
                hex@ == spec_hex(id@, false),
                next.drop_last() == seen,
                next.last() == id,
                next.len() > 0,
                forall|j: int|
                    0 <= j < i ==> #[trigger] result@[j] == spec_find(
                        next,
                        prefixes@[j].spec_bytes(),
                    ),
                forall|j: int|
                    i <= j < prefixes@.len() ==> #[trigger] result@[j] == spec_find(
                        seen,
                        prefixes@[j].spec_bytes(),
                    ),
            decreases prefixes@.len() - i,
        {
            let sid: &str = prefixes[i];
            if starts_with(hex.as_slice(), sid.as_bytes()) {
                let find = result[i];
                match find {
                    Find::Absent => {
                        result.set(i, Find::Unique(id));
                    },
                    Find::Unique(_) => {
                        result.set(i, Find::NonUnique);
                        if non_unique_count < prefixes.len() {
                            non_unique_count = non_unique_count + 1;
                        }
                    },
                    Find::NonUnique => {},
                }
            }
            i = i + 1;
        }
        n = n + 1;
        assert(ids@.subrange(0, n as int) == next);
        // Nothing lies beyond `NonUnique`: where every answer is that, the
        // rest of the listing need not be read.
        if non_unique_count >= prefixes.len() {
            let all = all_non_unique(&result);
            if all {
                proof {
                    assert forall|i: int| 0 <= i < prefixes@.len() implies #[trigger] result@[i]
                        == spec_find(ids@, prefixes@[i].spec_bytes()) by {
                        lemma_find_stays_non_unique(ids@, n as int, prefixes@[i].spec_bytes());
                    }
                }
                done = true;
            }
        }
    }
    proof {
        if !done {
            assert(ids@.subrange(0, n as int) =~= ids@);
        }
        assert forall|i: int| 0 <= i < prefixes@.len() implies spec_answers(
            #[trigger] result@[i],
            ids@,
            prefixes@[i].spec_bytes(),
        ) by {
            lemma_find_answers(ids@, prefixes@[i].spec_bytes());
        }
    }
    result
}

/// Whether every answer is `NonUnique`.
pub fn all_non_unique(result: &Vec<Find>) -> (r: bool)
    ensures
        r == forall|i: int| 0 <= i < result@.len() ==> (#[trigger] result@[i]) is NonUnique,
{
    let mut i: usize = 0;
    while i < result.len()
        invariant
            i <= result@.len(),
            forall|j: int| 0 <= j < i ==> (#[trigger] result@[j]) is NonUnique,
        decreases result@.len() - i,
    {
        if !result[i].is_non_unique() {
            return false;
        }
        i = i + 1;
    }
    true
}

/// Whether `find` is the answer to the search for `prefix` among the
/// objects of `kind`: `Absent` where no identifier begins with the prefix,
/// `Unique` with the one identifier that does, `NonUnique` where two do.
pub open spec fn spec_found(find: Find, objects: Objects, kind: ObjectKind, prefix: Seq<u8>) -> bool {
    match find {
        Find::Absent => forall|id: Id| #[trigger]
            objects.contains_key((kind, id@)) ==> !spec_matches(id, prefix),
        Find::Unique(id) => objects.contains_key((kind, id@)) && spec_matches(id, prefix) && forall|
            other: Id,
        | #[trigger]
            objects.contains_key((kind, other@)) && spec_matches(other, prefix) ==> other@ == id@,
        Find::NonUnique => exists|a: Id, b: Id|
            a@ != b@ && #[trigger] objects.contains_key((kind, a@)) && #[trigger] objects.contains_key(
                (kind, b@),
            ) && spec_matches(a, prefix) && spec_matches(b, prefix),
    }
}

/// The answer for a listing of the objects of a kind is the answer for the
/// objects.
pub proof fn lemma_answers_found(
    find: Find,
    ids: Seq<Id>,
    objects: Objects,
    kind: ObjectKind,
    prefix: Seq<u8>,
)
    requires
        spec_lists(ids, objects, kind),
        spec_answers(find, ids, prefix),
    ensures
        spec_found(find, objects, kind, prefix),
{
    match find {
        Find::Absent => {
            assert forall|id: Id| #[trigger]
                objects.contains_key((kind, id@)) implies !spec_matches(id, prefix) by {
                let j = choose|j: int| 0 <= j < ids.len() && (#[trigger] ids[j])@ == id@;
                assert(!spec_matches(ids[j], prefix));
            }
        },
        Find::Unique(id) => {
            let j = choose|j: int|
                0 <= j < ids.len() && #[trigger] ids[j] == id && spec_matches(id, prefix) && forall|
                    n: int,
                |
                    0 <= n < ids.len() && n != j ==> !spec_matches(#[trigger] ids[n], prefix);
            assert(objects.contains_key((kind, ids[j]@)));
            assert forall|other: Id| #[trigger]
                objects.contains_key((kind, other@)) && spec_matches(
                    other,
                    prefix,
                ) implies other@ == id@ by {
                let n = choose|n: int| 0 <= n < ids.len() && (#[trigger] ids[n])@ == other@;
                if n != j {
                    assert(!spec_matches(ids[n], prefix));
                }
            }
        },
        Find::NonUnique => {
            let (a, b) = choose|a: int, b: int|
                0 <= a < b < ids.len() && spec_matches(#[trigger] ids[a], prefix) && spec_matches(
                    #[trigger] ids[b],
                    prefix,
                );
            assert(ids[a]@ != ids[b]@);
            assert(objects.contains_key((kind, ids[a]@)));
            assert(objects.contains_key((kind, ids[b]@)));
        },
    }
}

/// Whether `r` is what the search for `prefix` among the objects of `kind`
/// returns: the answer for a listing that the backend's `iter` gives, or
/// the error that it gives in place of a listing.
pub open spec fn spec_search<B: BackendRead>(
    backend: &B,
    kind: ObjectKind,
    prefix: Seq<u8>,
    r: Result<Find, BackendError>,
) -> bool {
    match r {
        Ok(found) => exists|ids: Vec<Id>| #[trigger]
            call_ensures(B::iter, (backend, kind), Ok::<Vec<Id>, BackendError>(ids)) && found
                == spec_find(ids@, prefix),
        Err(e) => call_ensures(B::iter, (backend, kind), Err::<Vec<Id>, BackendError>(e)),
    }
}

/// Whether `r` is what the search for each of `prefixes` among the objects
/// of `kind` returns. Where nothing is searched for, the backend is not
/// asked: the search succeeds with no answer. Otherwise the answers are
/// those for a listing that the backend's `iter` gives, place by place, or
/// the search fails with the error that it gives in place of a listing.
pub open spec fn spec_search_each<B: BackendRead>(
    backend: &B,
    kind: ObjectKind,
    prefixes: Seq<&str>,
    r: Result<Vec<Find>, BackendError>,
) -> bool {
    if prefixes.len() == 0 {
        r matches Ok(found) && found@.len() == 0
    } else {
        match r {
            Ok(found) => exists|ids: Vec<Id>| #[trigger]
                call_ensures(B::iter, (backend, kind), Ok::<Vec<Id>, BackendError>(ids))
                    && found@.len() == prefixes.len() && forall|i: int|
                    0 <= i < prefixes.len() ==> #[trigger] found@[i] == spec_find(
                        ids@,
                        prefixes[i].spec_bytes(),
                    ),
            Err(e) => call_ensures(B::iter, (backend, kind), Err::<Vec<Id>, BackendError>(e)),
        }
    }
}

/// Searches the objects of `kind` for each of `prefixes`, a beginning of
/// the lowercase hexadecimal form of an identifier.
pub fn find_ids<B: BackendRead>(backend: &B, kind: ObjectKind, prefixes: &[&str]) -> (r: Result<
    Vec<Find>,
    BackendError,
>)
    ensures
        spec_search_each(backend, kind, prefixes@, r),
        r matches Ok(found) ==> found@.len() == prefixes@.len() && forall|i: int|
            0 <= i < prefixes@.len() ==> spec_found(
                #[trigger] found@[i],
                backend.objects(),
                kind,
                prefixes@[i].spec_bytes(),
            ),
{
    if prefixes.len() == 0 {
        return Ok(Vec::new());
    }
    let ids = match backend.iter(kind) {
        Ok(ids) => ids,
        Err(e) => {
            return Err(e);
        },
    };
    let found = find_in(&ids, prefixes);
    proof {
        assert forall|i: int| 0 <= i < prefixes@.len() implies spec_found(
            #[trigger] found@[i],
            backend.objects(),
            kind,
            prefixes@[i].spec_bytes(),
        ) by {
            lemma_answers_found(
                found@[i],
                ids@,
                backend.objects(),
                kind,
                prefixes@[i].spec_bytes(),
            );
        }
    }
    Ok(found)
}

/// Searches the objects of `kind` for `prefix`.
pub fn find_id<B: BackendRead>(backend: &B, kind: ObjectKind, prefix: &str) -> (r: Result<
    Find,
    BackendError,
>)
    ensures
        spec_search(backend, kind, prefix.spec_bytes(), r),
        r matches Ok(found) ==> spec_found(found, backend.objects(), kind, prefix.spec_bytes()),
{
    let ids = match backend.iter(kind) {
        Ok(ids) => ids,
        Err(e) => {
            return Err(e);
        },
    };
    let found = find_one(&ids, prefix);
    proof {
        lemma_answers_found(found, ids@, backend.objects(), kind, prefix.spec_bytes());
    }
    Ok(found)
}

/// Searches the listing `ids` for `prefix`.
pub fn find_one(ids: &Vec<Id>, prefix: &str) -> (found: Find)
    ensures
        found == spec_find(ids@, prefix.spec_bytes()),
        spec_answers(found, ids@, prefix.spec_bytes()),
{
    let mut found = Find::Absent;
    let mut n: usize = 0;
    assert(ids@.subrange(0, 0) =~= Seq::<Id>::empty());
    while n < ids.len()
        invariant
            n <= ids@.len(),
            found == spec_find(ids@.subrange(0, n as int), prefix.spec_bytes()),
        decreases ids@.len() - n,
    {
        let id = ids[n];
        let hex = id.to_hex_bytes();
        let ghost next = ids@.subrange(0, n + 1);
        assert(next.drop_last() =~= ids@.subrange(0, n as int));
        assert(next.last() == id);
        if starts_with(hex.as_slice(), prefix.as_bytes()) {
            found = match found {
                Find::Absent => Find::Unique(id),
                _ => Find::NonUnique,
            };
        }
        n = n + 1;
    }
    proof {
        assert(ids@.subrange(0, n as int) =~= ids@);
        lemma_find_answers(ids@, prefix.spec_bytes());
    }
    found
}

/// Reads the object whole: hands the backend's `read_all` an empty buffer
/// and returns what it left there, or the error that it gave.
pub fn read_to_end<B: BackendRead>(backend: &B, kind: ObjectKind, id: &Id) -> (r: Result<
    Vec<u8>,
    BackendError,
>)
    ensures
        exists|m: &mut Vec<u8>, n: Result<usize, BackendError>| #[trigger]
            call_ensures(B::read_all, (backend, kind, id, m), n) && m@.len() == 0 && match n {
                Ok(_) => r matches Ok(bytes) && bytes@ == final(m)@,
                Err(e) => r == Err::<Vec<u8>, BackendError>(e),
            },
        r matches Ok(bytes) ==> backend.objects().contains_key((kind, id@)) && bytes@
            == backend.objects()[(kind, id@)],
        r == Err::<Vec<u8>, BackendError>(BackendError::NotFound)
            ==> !backend.objects().contains_key((kind, id@)),
{
    let mut buf: Vec<u8> = Vec::new();
    match backend.read_all(kind, id, &mut buf) {
        Ok(_) => {
            assert(buf@ =~= backend.objects()[(kind, id@)]);
            Ok(buf)
        },
        Err(e) => Err(e),
    }
}


/// Searching by the beginning of an identifier, for every backend.
pub trait FindIdExt: BackendRead {
    /// Searches the objects of `kind` for each of `ids`, a beginning of the
    /// lowercase hexadecimal form of an identifier.
    fn find_ids(&self, kind: ObjectKind, ids: &[&str]) -> (r: Result<Vec<Find>, BackendError>)
        ensures
            spec_search_each(self, kind, ids@, r),
            r matches Ok(found) ==> found@.len() == ids@.len() && forall|i: int|
                0 <= i < ids@.len() ==> spec_found(
                    #[trigger] found@[i],
                    self.objects(),
                    kind,
                    ids@[i].spec_bytes(),
                ),
    ;

    /// Searches the objects of `kind` for `id`.
    fn find_id(&self, kind: ObjectKind, id: &str) -> (r: Result<Find, BackendError>)
        ensures
            spec_search(self, kind, id.spec_bytes(), r),
            r matches Ok(found) ==> spec_found(found, self.objects(), kind, id.spec_bytes()),
    ;
}

impl<T: BackendRead> FindIdExt for T {
    fn find_ids(&self, kind: ObjectKind, ids: &[&str]) -> (r: Result<Vec<Find>, BackendError>) {
        find_ids(self, kind, ids)
    }

    fn find_id(&self, kind: ObjectKind, id: &str) -> (r: Result<Find, BackendError>) {
        find_id(self, kind, id)
    }
}

/// Reading an object whole, for every backend.
pub trait ReadToEnd: BackendRead {
    /// Hands `read_all` an empty buffer and returns what it left there, or
    /// the error that it gave.
    fn read_to_end(&self, kind: ObjectKind, id: &Id) -> (r: Result<Vec<u8>, BackendError>)
        ensures
            exists|m: &mut Vec<u8>, n: Result<usize, BackendError>| #[trigger]
                call_ensures(Self::read_all, (self, kind, id, m), n) && m@.len() == 0 && match n {
                    Ok(_) => r matches Ok(bytes) && bytes@ == final(m)@,
                    Err(e) => r == Err::<Vec<u8>, BackendError>(e),
                },
            r matches Ok(bytes) ==> self.objects().contains_key((kind, id@)) && bytes@
                == self.objects()[(kind, id@)],
            r == Err::<Vec<u8>, BackendError>(BackendError::NotFound)
                ==> !self.objects().contains_key((kind, id@)),
    ;
}

impl<T: BackendRead> ReadToEnd for T {
    fn read_to_end(&self, kind: ObjectKind, id: &Id) -> (r: Result<Vec<u8>, BackendError>) {
        read_to_end(self, kind, id)
    }
}

} // verus!
