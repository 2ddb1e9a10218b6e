//! The entries of a tree.

use vstd::prelude::*;
use crate::id::Id;
use crate::os::Metadata;
use crate::path::Segment;

verus! {

/// What a symbolic link points at, where the system tells.
#[derive(Debug, Clone, Copy, PartialEq, Eq, Hash, Structural)]
pub enum TargetHint {
    Directory,
    File,
}

/// What kind of entry a node is, and what belongs to the kind.
#[derive(Debug, Clone, PartialEq, Eq)]
pub enum NodeKind {
    /// A file: the identifiers of the blobs that hold its content, in order.
    File { blobs: Vec<Id> },
    /// A directory: the identifier of its tree. It is absent while the tree
    /// is being built, and present in every stored tree.
    Directory { subtree: Option<Id> },
    Symlink { target: Vec<u8>, hint: Option<TargetHint> },
    Device { device: u64 },
    CharacterDevice { device: u64 },
    Fifo,
    Socket,
}

impl NodeKind {
    /// A file without content yet.
    pub fn file() -> (r: Self)
        ensures
            r matches NodeKind::File { blobs } && blobs@.len() == 0,
    {
        NodeKind::File { blobs: Vec::new() }
    }

    /// A directory without a tree yet.
    pub fn dir() -> (r: Self)
        ensures
            r == (NodeKind::Directory { subtree: None }),
    {
        NodeKind::Directory { subtree: None }
    }

    /// A symbolic link to `target`.
    pub fn symlink(target: Vec<u8>) -> (r: Self)
        ensures
            r == (NodeKind::Symlink { target, hint: None }),
    {
        NodeKind::Symlink { target, hint: None }
    }

    /// A block device.
    pub fn dev(device: u64) -> (r: Self)
        ensures
            r == (NodeKind::Device { device }),
    {
        NodeKind::Device { device }
    }

    /// A character device.
    pub fn cdev(device: u64) -> (r: Self)
        ensures
            r == (NodeKind::CharacterDevice { device }),
    {
        NodeKind::CharacterDevice { device }
    }

    pub fn fifo() -> (r: Self)
        ensures
            r == NodeKind::Fifo,
    {
        NodeKind::Fifo
    }

    pub fn socket() -> (r: Self)
        ensures
            r == NodeKind::Socket,
    {
        NodeKind::Socket
    }

    /// Whether the entry is a directory.
    pub fn is_dir(&self) -> (r: bool)
        ensures
            r == (*self is Directory),
    {
        matches!(self, NodeKind::Directory { .. })
    }

    /// Whether a stored tree may hold the entry: a directory has its tree.
    pub open spec fn spec_is_final(self) -> bool {
        self matches NodeKind::Directory { subtree } ==> subtree is Some
    }

    /// Whether a stored tree may hold the entry.
    pub fn is_final(&self) -> (r: bool)
        ensures
            r == self.spec_is_final(),
    {
        match self {
            NodeKind::Directory { subtree } => subtree.is_some(),
            _ => true,
        }
    }
}

/// One entry of a tree.
#[derive(Debug, Clone, PartialEq, Eq)]
pub struct Node {
    pub name: Segment,
    pub kind: NodeKind,
    pub meta: Metadata,
}

} // verus!
