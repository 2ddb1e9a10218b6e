//! Users and file metadata as Windows systems have them.

use vstd::prelude::*;
use crate::os::Timestamp;

verus! {

/// A user: host and user name as raw bytes.
#[derive(Debug, Clone, PartialEq, Eq, Hash)]
pub struct User {
    pub hostname: Option<Vec<u8>>,
    pub username: Option<Vec<u8>>,
}

/// The attribute bits of a file.
#[derive(Debug, Clone, Copy, PartialEq, Eq, Hash, Structural)]
pub struct Permissions {
    pub attributes: u32,
}

/// The times of a file.
#[derive(Debug, Clone, Copy, PartialEq, Eq, Hash)]
pub struct Times {
    pub access: Option<Timestamp>,
    /// When the content last changed.
    pub modify: Option<Timestamp>,
    pub create: Option<Timestamp>,
}

/// What tells one file from every other: the volume and the index on it.
#[derive(Debug, Clone, Copy, PartialEq, Eq, Hash)]
pub struct Identifier {
    pub volume_serial_number: Option<u32>,
    pub file_index: Option<u64>,
}

/// The metadata of one file.
#[derive(Debug, Clone, PartialEq, Eq, Hash)]
pub struct Metadata {
    pub user: User,
    pub perm: Permissions,
    pub time: Times,
    pub ident: Identifier,
    pub len: u64,
}

} // verus!
