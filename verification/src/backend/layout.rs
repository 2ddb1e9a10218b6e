//! Where a store that keeps its objects in files puts them: a file for the
//! configuration, and a directory for each other kind, with a file for each
//! object under the hexadecimal form of its identifier. In the second
//! version of the layout the directory of the packs is split in 256, by the
//! first two digits of the identifier.

use vstd::prelude::*;
use crate::id::{spec_ascii_chars, spec_hex, Id};
use crate::obj::ObjectKind;

verus! {

/// The version of the layout of a store.
#[derive(Debug, Clone, Copy, PartialEq, Eq, Hash, Structural)]
pub enum Layout {
    /// Every kind in one directory.
    V1,
    /// The packs in 256 directories.
    V2,
}

impl Layout {
    /// Whether objects of `kind` are split over 256 directories.
    pub open spec fn spec_shards(self, kind: ObjectKind) -> bool {
        self == Layout::V2 && kind == ObjectKind::Pack
    }

    /// Whether objects of `kind` are split over 256 directories.
    pub fn shards(self, kind: ObjectKind) -> (r: bool)
        ensures
            r == self.spec_shards(kind),
    {
        matches!(self, Layout::V2) && matches!(kind, ObjectKind::Pack)
    }
}

/// The path of an object below the root of the store, segment by segment.
pub open spec fn spec_object_path(layout: Layout, kind: ObjectKind, id: Id) -> Seq<Seq<char>> {
    let hex = spec_ascii_chars(spec_hex(id@, false));
    if kind == ObjectKind::Config {
        seq![kind.spec_name()]
    } else if layout.spec_shards(kind) {
        seq![kind.spec_name(), hex.subrange(0, 2), hex]
    } else {
        seq![kind.spec_name(), hex]
    }
}

/// What a list of segments holds.
pub open spec fn spec_texts(segments: Seq<String>) -> Seq<Seq<char>> {
    Seq::new(segments.len(), |i: int| segments[i]@)
}

/// The path of an object below the root of the store, segment by segment.
/// The configuration has one place, whatever the identifier.
pub fn object_path(layout: Layout, kind: ObjectKind, id: &Id) -> (path: Vec<String>)
    ensures
        spec_texts(path@) == spec_object_path(layout, kind, *id),
{
    let mut path: Vec<String> = Vec::new();
    path.push(kind.name().to_owned());
    if !matches!(kind, ObjectKind::Config) {
        if layout.shards(kind) {
            path.push(id.shard());
        }
        path.push(id.to_hex());
    }
    assert(spec_texts(path@) =~= spec_object_path(layout, kind, *id));
    path
}

} // verus!
