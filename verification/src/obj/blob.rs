//! Blobs: the pieces that packs hold.

use vstd::prelude::*;

verus! {

/// What a blob holds.
#[derive(Debug, Clone, Copy, PartialEq, Eq, Hash, Structural)]
pub enum BlobKind {
    /// The record of a tree.
    Tree,
    /// A chunk of the content of a file.
    Data,
}

} // verus!
