//! Sources: what a backup takes its entries from.

use vstd::prelude::*;

pub mod stdin;

verus! {

/// One entry of a source, as the source hands it out.
pub trait Item {
    /// Whether entries lie below this one.
    spec fn spec_can_descend(&self) -> bool;

    /// Whether entries lie below this one: whether it is a directory.
    fn can_descend(&self) -> (r: bool)
        ensures
            r == self.spec_can_descend(),
    ;
}

} // verus!
