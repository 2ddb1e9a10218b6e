//! Lock records, and the rule by which two locks can be held at once.

use vstd::prelude::*;
use crate::obj::record::{
    access_field, put_time, put_user, read_access, read_time, read_u32, read_user, spec_access,
    spec_is_access, spec_is_time_fields, spec_is_u32, spec_is_user_fields, spec_time_fields,
    spec_user_fields,
};
use crate::obj::{ObjectKind, RepoObject};
use crate::os::{Timestamp, User};
use crate::process::format::{spec_views, Field, FieldView};

verus! {

/// What a lock holder may do with the objects of one kind.
#[derive(Debug, Clone, Copy, PartialEq, Eq, PartialOrd, Ord, Hash, Structural)]
pub enum LockAccess {
    /// The holder does not touch the kind.
    Idle,
    /// The holder reads.
    Shared,
    /// The holder writes.
    Exclusive,
}

/// The table of which two access levels can be held on one kind at once.
pub open spec fn spec_admits(existing: LockAccess, incoming: LockAccess) -> bool {
    match (existing, incoming) {
        (LockAccess::Idle, LockAccess::Idle) => true,
        (LockAccess::Idle, LockAccess::Shared) => true,
        (LockAccess::Idle, LockAccess::Exclusive) => true,
        (LockAccess::Shared, LockAccess::Idle) => true,
        (LockAccess::Shared, LockAccess::Shared) => true,
        (LockAccess::Shared, LockAccess::Exclusive) => false,
        (LockAccess::Exclusive, LockAccess::Idle) => true,
        (LockAccess::Exclusive, LockAccess::Shared) => false,
        (LockAccess::Exclusive, LockAccess::Exclusive) => false,
    }
}

impl LockAccess {
    /// Reading is allowed: the level is `Shared` or `Exclusive`.
    pub open spec fn spec_can_read(self) -> bool {
        self != LockAccess::Idle
    }

    /// Writing is allowed: the level is `Exclusive`.
    pub open spec fn spec_can_write(self) -> bool {
        self == LockAccess::Exclusive
    }

    /// Whether a holder at this level and a request at level `incoming` can
    /// both be granted.
    pub open spec fn spec_coexists(self, incoming: LockAccess) -> bool {
        self == LockAccess::Idle || incoming == LockAccess::Idle || (self == LockAccess::Shared
            && incoming == LockAccess::Shared)
    }

    pub fn can_read(self) -> (r: bool)
        ensures
            r == self.spec_can_read(),
    {
        !matches!(self, LockAccess::Idle)
    }

    pub fn can_write(self) -> (r: bool)
        ensures
            r == self.spec_can_write(),
    {
        matches!(self, LockAccess::Exclusive)
    }

    /// Whether a holder at this level and a request at level `incoming` can
    /// both be granted.
    pub fn coexists(self, incoming: LockAccess) -> (r: bool)
        ensures
            r == self.spec_coexists(incoming),
            r == spec_admits(self, incoming),
    {
        match self {
            LockAccess::Idle => true,
            LockAccess::Shared => !matches!(incoming, LockAccess::Exclusive),
            LockAccess::Exclusive => matches!(incoming, LockAccess::Idle),
        }
    }
}

/// The access level of a lock for each of the five kinds that locks protect.
#[derive(Debug, Clone, Copy, PartialEq, Eq, Hash, Structural)]
pub struct LockState {
    pub config: LockAccess,
    pub index: LockAccess,
    pub key: LockAccess,
    pub snapshot: LockAccess,
    pub pack: LockAccess,
}

impl LockState {
    /// The level held on `kind`. Locks themselves are not protected by locks.
    pub open spec fn spec_access(self, kind: ObjectKind) -> LockAccess {
        match kind {
            ObjectKind::Config => self.config,
            ObjectKind::Index => self.index,
            ObjectKind::Key => self.key,
            ObjectKind::Snapshot => self.snapshot,
            ObjectKind::Pack => self.pack,
            ObjectKind::Lock => LockAccess::Idle,
        }
    }

    /// Whether a holder in this state and a request for `incoming` can both
    /// be granted: the levels coexist on every kind.
    pub open spec fn spec_compatible(self, incoming: LockState) -> bool {
        &&& self.config.spec_coexists(incoming.config)
        &&& self.index.spec_coexists(incoming.index)
        &&& self.key.spec_coexists(incoming.key)
        &&& self.snapshot.spec_coexists(incoming.snapshot)
        &&& self.pack.spec_coexists(incoming.pack)
    }

    /// The level held on `kind`.
    pub fn access(&self, kind: ObjectKind) -> (r: LockAccess)
        ensures
            r == self.spec_access(kind),
    {
        match kind {
            ObjectKind::Config => self.config,
            ObjectKind::Index => self.index,
            ObjectKind::Key => self.key,
            ObjectKind::Snapshot => self.snapshot,
            ObjectKind::Pack => self.pack,
            ObjectKind::Lock => LockAccess::Idle,
        }
    }

    /// Whether a holder in this state and a request for `incoming` can both
    /// be granted.
    pub fn compatible(&self, incoming: &LockState) -> (r: bool)
        ensures
            r == self.spec_compatible(*incoming),
    {
        self.config.coexists(incoming.config) && self.index.coexists(incoming.index)
            && self.key.coexists(incoming.key) && self.snapshot.coexists(incoming.snapshot)
            && self.pack.coexists(incoming.pack)
    }
}

/// A holder in state `a` and a request for `b` can both be granted exactly
/// when the table admits the two levels on every kind; and which of the two
/// came first makes no difference.
pub proof fn lemma_compatible_iff_table(a: LockState, b: LockState)
    ensures
        a.spec_compatible(b) <==> (forall|kind: ObjectKind|
            spec_admits(#[trigger] a.spec_access(kind), b.spec_access(kind))),
        a.spec_compatible(b) == b.spec_compatible(a),
{
    if a.spec_compatible(b) {
        assert forall|kind: ObjectKind|
            spec_admits(#[trigger] a.spec_access(kind), b.spec_access(kind)) by {}
    }
    if forall|kind: ObjectKind| spec_admits(#[trigger] a.spec_access(kind), b.spec_access(kind)) {
        assert(spec_admits(a.spec_access(ObjectKind::Config), b.spec_access(ObjectKind::Config)));
        assert(spec_admits(a.spec_access(ObjectKind::Index), b.spec_access(ObjectKind::Index)));
        assert(spec_admits(a.spec_access(ObjectKind::Key), b.spec_access(ObjectKind::Key)));
        assert(spec_admits(
            a.spec_access(ObjectKind::Snapshot),
            b.spec_access(ObjectKind::Snapshot),
        ));
        assert(spec_admits(a.spec_access(ObjectKind::Pack), b.spec_access(ObjectKind::Pack)));
    }
}

/// Who holds a lock, and since when.
#[derive(Debug, Clone, PartialEq, Eq, Hash)]
pub struct LockMeta {
    pub user: User,
    pub created: Timestamp,
    pub pid: u32,
}

/// One lock record: there is one per live holder.
#[derive(Debug, Clone, PartialEq, Eq)]
pub struct Lock {
    pub meta: LockMeta,
    pub state: LockState,
}


/// The thirteen fields of a lock: the user, the time, the process, and the
/// five access levels.
pub open spec fn spec_lock_fields(l: Lock) -> Seq<FieldView> {
    spec_user_fields(l.meta.user) + spec_time_fields(l.meta.created) + seq![
        FieldView::Uint(l.meta.pid as u64),
        spec_access(l.state.config),
        spec_access(l.state.index),
        spec_access(l.state.key),
        spec_access(l.state.snapshot),
        spec_access(l.state.pack),
    ]
}

/// Whether fields are those of a lock.
pub open spec fn spec_is_lock_fields(fs: Seq<FieldView>) -> bool {
    &&& fs.len() == 13
    &&& spec_is_user_fields(fs, 0)
    &&& spec_is_time_fields(fs, 5)
    &&& spec_is_u32(fs[7])
    &&& spec_is_access(fs[8])
    &&& spec_is_access(fs[9])
    &&& spec_is_access(fs[10])
    &&& spec_is_access(fs[11])
    &&& spec_is_access(fs[12])
}

impl LockMeta {
    /// The holder of a lock: a user, a time, a process.
    pub fn new(user: User, created: Timestamp, pid: u32) -> (r: Self)
        ensures
            r.user == user,
            r.created == created,
            r.pid == pid,
    {
        Self { user, created, pid }
    }
}

impl Lock {
    /// A lock of the given holder for the given access.
    pub fn new(meta: LockMeta, state: LockState) -> (r: Self)
        ensures
            r.meta == meta,
            r.state == state,
    {
        Self { meta, state }
    }
}

impl RepoObject for Lock {
    open spec fn spec_fields(&self) -> Seq<FieldView> {
        spec_lock_fields(*self)
    }

    open spec fn spec_is_fields(fs: Seq<FieldView>) -> bool {
        spec_is_lock_fields(fs)
    }

    fn kind() -> (r: ObjectKind)
        ensures
            r == ObjectKind::Lock,
    {
        ObjectKind::Lock
    }

    fn to_fields(&self) -> (fields: Vec<Field>) {
        let mut fields: Vec<Field> = Vec::new();
        assert(spec_views(fields@) =~= Seq::<FieldView>::empty());
        put_user(&mut fields, &self.meta.user);
        put_time(&mut fields, &self.meta.created);
        let ghost head = spec_views(fields@);
        fields.push(Field::Uint(self.meta.pid as u64));
        fields.push(access_field(self.state.config));
        fields.push(access_field(self.state.index));
        fields.push(access_field(self.state.key));
        fields.push(access_field(self.state.snapshot));
        fields.push(access_field(self.state.pack));
        assert(spec_views(fields@) =~= spec_lock_fields(*self));
        fields
    }

    fn from_fields(fields: &Vec<Field>) -> (r: Option<Self>) {
        let ghost fs = spec_views(fields@);
        if fields.len() != 13 {
            return None;
        }
        let user = read_user(fields, 0);
        let created = read_time(fields, 5);
        let pid = read_u32(&fields[7]);
        let config = read_access(&fields[8]);
        let index = read_access(&fields[9]);
        let key = read_access(&fields[10]);
        let snapshot = read_access(&fields[11]);
        let pack = read_access(&fields[12]);
        match (user, created, pid, config, index, key, snapshot, pack) {
            (
                Some(user),
                Some(created),
                Some(pid),
                Some(config),
                Some(index),
                Some(key),
                Some(snapshot),
                Some(pack),
            ) => {
                let lock = Lock {
                    meta: LockMeta { user, created, pid },
                    state: LockState { config, index, key, snapshot, pack },
                };
                proof {
                    let got = spec_lock_fields(lock);
                    assert(got.len() == 13);
                    assert forall|i: int| 0 <= i < 13 implies got[i] == fs[i] by {
                        if i < 5 {
                            assert(fs.subrange(0, 5)[i] == fs[i]);
                        } else if i < 7 {
                            assert(fs.subrange(5, 7)[i - 5] == fs[i]);
                        }
                    }
                    assert(got =~= fs);
                }
                Some(lock)
            },
            _ => None,
        }
    }

    proof fn lemma_fields_valid(&self) {
        let fs = spec_lock_fields(*self);
        crate::obj::record::lemma_parts_valid(self.meta.user, self.meta.created, self.state.config);
        let u = spec_user_fields(self.meta.user);
        let t = spec_time_fields(self.meta.created);
        assert(fs.len() == 13);
        assert forall|i: int| 0 <= i < 5 implies fs[i] == u[i] by {}
        assert forall|i: int| 5 <= i < 7 implies fs[i] == t[i - 5] by {}
    }
}

} // verus!
