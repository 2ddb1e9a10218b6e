//! Trees: one per directory, the entries of the directory in order.

use vstd::prelude::*;
use crate::obj::tree::node::Node;

pub mod node;

verus! {

/// The entries of one directory. No two entries have the same name.
#[derive(Debug, PartialEq, Eq)]
pub struct Tree {
    nodes: Vec<Node>,
}

/// Whether no two of `nodes` have the same name.
pub open spec fn spec_unique_names(nodes: Seq<Node>) -> bool {
    forall|i: int, j: int|
        0 <= i < j < nodes.len() ==> (#[trigger] nodes[i]).name@ != (#[trigger] nodes[j]).name@
}

impl Tree {
    pub closed spec fn spec_nodes(&self) -> Seq<Node> {
        self.nodes@
    }

    /// A tree of the given entries; `None` where two of them have the same
    /// name.
    pub fn new(nodes: Vec<Node>) -> (r: Option<Self>)
        ensures
            match r {
                Some(tree) => spec_unique_names(nodes@) && tree.spec_nodes() == nodes@,
                None => !spec_unique_names(nodes@),
            },
    {
        let mut j: usize = 0;
        while j < nodes.len()
            invariant
                j <= nodes@.len(),
                forall|a: int, b: int|
                    0 <= a < b < j ==> (#[trigger] nodes@[a]).name@ != (#[trigger] nodes@[b]).name@,
            decreases nodes@.len() - j,
        {
            let mut i: usize = 0;
            while i < j
                invariant
                    i <= j < nodes@.len(),
                    forall|a: int| 0 <= a < i ==> (#[trigger] nodes@[a]).name@ != nodes@[j as int].name@,
                decreases j - i,
            {
                if crate::path::bytes_eq(nodes[i].name.as_slice(), nodes[j].name.as_slice()) {
                    return None;
                }
                i = i + 1;
            }
            j = j + 1;
        }
        Some(Self { nodes })
    }

    /// Whether the tree can be stored: every directory among its entries
    /// has its own tree.
    pub open spec fn spec_is_complete(&self) -> bool {
        forall|i: int|
            0 <= i < self.spec_nodes().len() ==> (#[trigger] self.spec_nodes()[i]).kind.spec_is_final()
    }

    /// Whether the tree can be stored.
    pub fn is_complete(&self) -> (r: bool)
        ensures
            r == self.spec_is_complete(),
    {
        let mut i: usize = 0;
        while i < self.nodes.len()
            invariant
                i <= self.nodes@.len(),
                forall|j: int| 0 <= j < i ==> (#[trigger] self.nodes@[j]).kind.spec_is_final(),
            decreases self.nodes@.len() - i,
        {
            if !self.nodes[i].kind.is_final() {
                return false;
            }
            i = i + 1;
        }
        true
    }

    /// The entries, in order.
    pub fn nodes(&self) -> (r: &Vec<Node>)
        ensures
            r@ == self.spec_nodes(),
            spec_unique_names(r@),
    {
        proof {
            use_type_invariant(&*self);
        }
        &self.nodes
    }

    /// The entries, in order.
    pub fn into_nodes(self) -> (r: Vec<Node>)
        ensures
            r@ == self.spec_nodes(),
            spec_unique_names(r@),
    {
        proof {
            use_type_invariant(&self);
        }
        self.nodes
    }

    #[verifier::type_invariant]
    spec fn inv(self) -> bool {
        spec_unique_names(self.nodes@)
    }
}

} // verus!
