//! The access that a session asks for: a level for each of the five kinds
//! that locks protect.

use vstd::prelude::*;
use crate::obj::lock::{LockAccess, LockState};

verus! {

/// What a session asks to lock. It starts from no access and is built up
/// kind by kind.
#[derive(Debug, Clone, Copy, PartialEq, Eq, Structural)]
pub struct LockMarker {
    pub state: LockState,
}

impl Default for LockMarker {
    fn default() -> (r: Self)
        ensures
            r == LockMarker::spec_all(LockAccess::Idle),
    {
        LockMarker::new()
    }
}

impl LockMarker {
    /// The marker that asks for `access` on every kind.
    pub open spec fn spec_all(access: LockAccess) -> LockMarker {
        LockMarker {
            state: LockState {
                config: access,
                index: access,
                key: access,
                snapshot: access,
                pack: access,
            },
        }
    }

    /// No access to anything.
    pub fn new() -> (r: Self)
        ensures
            r == LockMarker::spec_all(LockAccess::Idle),
    {
        LockMarker::all(LockAccess::Idle)
    }

    /// The same access to every kind.
    pub fn all(access: LockAccess) -> (r: Self)
        ensures
            r == LockMarker::spec_all(access),
    {
        LockMarker {
            state: LockState {
                config: access,
                index: access,
                key: access,
                snapshot: access,
                pack: access,
            },
        }
    }

    /// No access to anything.
    pub fn no() -> (r: Self)
        ensures
            r == LockMarker::spec_all(LockAccess::Idle),
    {
        LockMarker::all(LockAccess::Idle)
    }

    /// Shared access to everything: for reading.
    pub fn read() -> (r: Self)
        ensures
            r == LockMarker::spec_all(LockAccess::Shared),
    {
        LockMarker::all(LockAccess::Shared)
    }

    /// Exclusive access to everything: for writing.
    pub fn write() -> (r: Self)
        ensures
            r == LockMarker::spec_all(LockAccess::Exclusive),
    {
        LockMarker::all(LockAccess::Exclusive)
    }

    /// The same marker with `access` to the configuration.
    pub fn config(self, access: LockAccess) -> (r: Self)
        ensures
            r.state == (LockState { config: access, ..self.state }),
    {
        LockMarker { state: LockState { config: access, ..self.state } }
    }

    /// The same marker with `access` to the indices.
    pub fn index(self, access: LockAccess) -> (r: Self)
        ensures
            r.state == (LockState { index: access, ..self.state }),
    {
        LockMarker { state: LockState { index: access, ..self.state } }
    }

    /// The same marker with `access` to the keys.
    pub fn key(self, access: LockAccess) -> (r: Self)
        ensures
            r.state == (LockState { key: access, ..self.state }),
    {
        LockMarker { state: LockState { key: access, ..self.state } }
    }

    /// The same marker with `access` to the snapshots.
    pub fn snapshot(self, access: LockAccess) -> (r: Self)
        ensures
            r.state == (LockState { snapshot: access, ..self.state }),
    {
        LockMarker { state: LockState { snapshot: access, ..self.state } }
    }

    /// The same marker with `access` to the packs.
    pub fn pack(self, access: LockAccess) -> (r: Self)
        ensures
            r.state == (LockState { pack: access, ..self.state }),
    {
        LockMarker { state: LockState { pack: access, ..self.state } }
    }

    /// The state of the lock that the marker asks for.
    pub fn into_state(self) -> (r: LockState)
        ensures
            r == self.state,
    {
        self.state
    }
}

} // verus!
