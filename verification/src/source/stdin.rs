//! The standard input as a source: one file, named `stdin`.

use vstd::prelude::*;
use crate::obj::tree::node::{Node, NodeKind};
use crate::os::Metadata;
use crate::source::Item;

verus! {

/// The one entry of the standard input.
#[derive(Debug, Clone, Copy, PartialEq, Eq, Structural)]
pub struct StdinItem;

/// The standard input.
#[derive(Debug, Clone, Copy, PartialEq, Eq, Structural)]
pub struct StdinSource;

impl Item for StdinItem {
    open spec fn spec_can_descend(&self) -> bool {
        false
    }

    fn can_descend(&self) -> (r: bool) {
        false
    }
}

/// The name of the entry of the standard input.
pub open spec fn spec_stdin_name() -> Seq<u8> {
    seq![115u8, 116u8, 100u8, 105u8, 110u8]
}

impl StdinSource {
    /// The entries of the source below `item`: the one entry at the top,
    /// and nothing below it.
    pub fn iter(&self, item: Option<&StdinItem>) -> (r: Vec<StdinItem>)
        ensures
            r@.len() == (if item is None {
                1int
            } else {
                0int
            }),
    {
        let mut items: Vec<StdinItem> = Vec::new();
        if item.is_none() {
            items.push(StdinItem);
        }
        items
    }

    /// The node of the entry: a file named `stdin`, of which nothing else
    /// is known.
    pub fn node(&self, item: &StdinItem) -> (r: Node)
        ensures
            r.name@ == spec_stdin_name(),
            r.kind matches NodeKind::File { blobs } && blobs@.len() == 0,
            r.meta.spec_is_unknown(),
    {
        let mut name: Vec<u8> = Vec::new();
        name.push(115);
        name.push(116);
        name.push(100);
        name.push(105);
        name.push(110);
        assert(name@ =~= spec_stdin_name());
        Node { name, kind: NodeKind::file(), meta: Metadata::unknown() }
    }
}

} // verus!
