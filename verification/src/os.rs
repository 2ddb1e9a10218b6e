//! What the library records of the operating system: users, times and file
//! metadata, as plain values.

use vstd::prelude::*;

pub mod unix;
pub mod windows;

verus! {

/// A point in time: seconds since the start of 1970 in UTC, and the
/// nanoseconds within the second.
#[derive(Debug, Clone, Copy, PartialEq, Eq, Hash, Structural)]
pub struct Timestamp {
    pub secs: i64,
    pub nanos: u32,
}

/// The user on whose behalf a record was written.
#[derive(Debug, Clone, PartialEq, Eq, Hash)]
pub enum User {
    Unix(unix::User),
    Windows(windows::User),
}

/// The metadata of a file system entry.
#[derive(Debug, Clone, PartialEq, Eq, Hash)]
pub enum Metadata {
    Unix(unix::Metadata),
    Windows(windows::Metadata),
}

impl Metadata {
    /// Whether nothing is known: the metadata are those of Unix, every
    /// number is 0 and everything else is absent.
    pub open spec fn spec_is_unknown(self) -> bool {
        self matches Metadata::Unix(m) && m.len == 0 && m.perm.mode == 0 && m.ident.dev == 0
            && m.ident.ino == 0 && m.user.hostname is None && m.user.username is None
            && m.user.uid is None && m.user.gid is None && m.time.access is None && m.time.modify
            is None && m.time.change is None && m.time.create is None
    }

    /// Metadata with nothing known, for a node that no file system holds.
    pub fn unknown() -> (r: Self)
        ensures
            r.spec_is_unknown(),
    {
        Metadata::Unix(
            unix::Metadata {
                user: unix::User { hostname: None, username: None, uid: None, gid: None },
                perm: unix::Permissions { mode: 0 },
                time: unix::Times { access: None, modify: None, change: None, create: None },
                ident: unix::Identifier { dev: 0, ino: 0 },
                len: 0,
            },
        )
    }
}

} // verus!
