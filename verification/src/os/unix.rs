//! Users and file metadata as Unix systems have them.

use vstd::prelude::*;
use crate::os::Timestamp;

verus! {

/// A user: host and user name as raw bytes, and the numeric ids.
#[derive(Debug, Clone, PartialEq, Eq, Hash)]
pub struct User {
    pub hostname: Option<Vec<u8>>,
    pub username: Option<Vec<u8>>,
    pub uid: Option<u32>,
    pub gid: Option<u32>,
}

/// The permission bits of a file.
#[derive(Debug, Clone, Copy, PartialEq, Eq, Hash, Structural)]
pub struct Permissions {
    pub mode: u32,
}

/// The times of a file.
#[derive(Debug, Clone, Copy, PartialEq, Eq, Hash)]
pub struct Times {
    pub access: Option<Timestamp>,
    /// When the content last changed.
    pub modify: Option<Timestamp>,
    /// When the metadata last changed.
    pub change: Option<Timestamp>,
    pub create: Option<Timestamp>,
}

/// What tells one file from every other: the device and the inode.
#[derive(Debug, Clone, Copy, PartialEq, Eq, Hash, Structural)]
pub struct Identifier {
    pub dev: u64,
    pub ino: u64,
}

/// The metadata of one file.
#[derive(Debug, Clone, PartialEq, Eq, Hash)]
pub struct Metadata {
    pub user: User,
    pub perm: Permissions,
    pub time: Times,
    pub ident: Identifier,
    pub len: u64,
}

} // verus!
