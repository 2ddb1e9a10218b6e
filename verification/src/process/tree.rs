//! Building the tree of a source: entries arrive one by one, each with the
//! path of its parent, in any order; the builder puts each in its place and
//! keeps the order in which siblings arrived.

use vstd::prelude::*;
use crate::obj::tree::node::Node as ObjNode;
use crate::path::{bytes_eq, spec_segments, Segment};
use crate::process::compress::copy_bytes;

pub mod im;
pub mod law;

verus! {

/// One entry of a tree that is being built.
#[derive(Debug)]
pub enum Node<I> {
    /// An entry that is no directory.
    Leaf { node: ObjNode, item: I },
    /// A directory whose own entry has arrived.
    Branch { node: ObjNode, item: I, tree: TreeBuilder<I> },
    /// A directory of which only the name is known: entries below it have
    /// arrived, its own entry has not.
    UnresolvedBranch { sgmt: Segment, tree: TreeBuilder<I> },
}

/// The entries of one directory of a tree that is being built.
#[derive(Debug)]
pub struct TreeBuilder<I> {
    pub(crate) nodes: Vec<Node<I>>,
}

/// What a [`Node`] holds, with the entries below it.
pub enum NodeModel<I> {
    Leaf { node: ObjNode, item: I },
    Branch { node: ObjNode, item: I, nodes: Seq<NodeModel<I>> },
    UnresolvedBranch { sgmt: Seq<u8>, nodes: Seq<NodeModel<I>> },
}

impl<I> NodeModel<I> {
    /// The name of the entry.
    pub open spec fn segment(self) -> Seq<u8> {
        match self {
            NodeModel::Leaf { node, .. } => node.name@,
            NodeModel::Branch { node, .. } => node.name@,
            NodeModel::UnresolvedBranch { sgmt, .. } => sgmt,
        }
    }

    /// Whether the entry is a directory, resolved or not.
    pub open spec fn is_tree(self) -> bool {
        !(self is Leaf)
    }

    /// The entries below this one; none below a leaf.
    pub open spec fn children(self) -> Seq<NodeModel<I>> {
        match self {
            NodeModel::Leaf { .. } => Seq::empty(),
            NodeModel::Branch { nodes, .. } => nodes,
            NodeModel::UnresolvedBranch { nodes, .. } => nodes,
        }
    }

    /// This entry with `nodes` below it; a leaf stays as it is.
    pub open spec fn with_children(self, nodes: Seq<NodeModel<I>>) -> NodeModel<I> {
        match self {
            NodeModel::Leaf { .. } => self,
            NodeModel::Branch { node, item, .. } => NodeModel::Branch { node, item, nodes },
            NodeModel::UnresolvedBranch { sgmt, .. } => NodeModel::UnresolvedBranch { sgmt, nodes },
        }
    }
}

/// What a builder node holds.
pub closed spec fn spec_node<I>(n: Node<I>) -> NodeModel<I>
    decreases n,
{
    match n {
        Node::Leaf { node, item } => NodeModel::Leaf { node, item },
        Node::Branch { node, item, tree } => NodeModel::Branch {
            node,
            item,
            nodes: spec_nodes(tree.nodes@),
        },
        Node::UnresolvedBranch { sgmt, tree } => NodeModel::UnresolvedBranch {
            sgmt: sgmt@,
            nodes: spec_nodes(tree.nodes@),
        },
    }
}

/// What builder nodes hold.
pub closed spec fn spec_nodes<I>(s: Seq<Node<I>>) -> Seq<NodeModel<I>>
    decreases s,
{
    if s.len() == 0 {
        Seq::empty()
    } else {
        spec_nodes(s.drop_last()).push(spec_node(s.last()))
    }
}

/// What a node holds is what its parts hold.
pub proof fn lemma_spec_node<I>(n: Node<I>)
    ensures
        match n {
            Node::Leaf { node, item } => spec_node(n) == (NodeModel::Leaf { node, item }),
            Node::Branch { node, item, tree } => spec_node(n) == (NodeModel::Branch {
                node,
                item,
                nodes: tree@,
            }),
            Node::UnresolvedBranch { sgmt, tree } => spec_node(n) == (NodeModel::UnresolvedBranch {
                sgmt: sgmt@,
                nodes: tree@,
            }),
        },
{
}

/// The model of a list of nodes has the model of each node at its place.
pub proof fn lemma_spec_nodes<I>(s: Seq<Node<I>>)
    ensures
        spec_nodes(s).len() == s.len(),
        forall|i: int| 0 <= i < s.len() ==> (#[trigger] spec_nodes(s)[i]) == spec_node(s[i]),
    decreases s.len(),
{
    if s.len() > 0 {
        lemma_spec_nodes(s.drop_last());
    }
}

/// The place of the first directory named `head` among `nodes`, from place
/// `from` on; the length of `nodes` where there is none.
pub open spec fn spec_position_tree<I>(nodes: Seq<NodeModel<I>>, head: Seq<u8>, from: int) -> int
    decreases nodes.len() - from,
{
    if from < 0 || from >= nodes.len() {
        nodes.len() as int
    } else if nodes[from].segment() == head && nodes[from].is_tree() {
        from
    } else {
        spec_position_tree(nodes, head, from + 1)
    }
}

/// The place of the first unresolved directory named `name` among `nodes`,
/// from place `from` on; the length of `nodes` where there is none.
pub open spec fn spec_position_unresolved<I>(
    nodes: Seq<NodeModel<I>>,
    name: Seq<u8>,
    from: int,
) -> int
    decreases nodes.len() - from,
{
    if from < 0 || from >= nodes.len() {
        nodes.len() as int
    } else if nodes[from].segment() == name && nodes[from] is UnresolvedBranch {
        from
    } else {
        spec_position_unresolved(nodes, name, from + 1)
    }
}

/// The entries of a directory after `node` has been put among them. A
/// directory takes the place of the unresolved directory of its name where
/// there is one, and keeps what is below it; every other entry goes to the
/// end.
pub open spec fn spec_place<I>(nodes: Seq<NodeModel<I>>, node: ObjNode, item: I) -> Seq<
    NodeModel<I>,
> {
    if node.kind is Directory {
        let j = spec_position_unresolved(nodes, node.name@, 0);
        if j < nodes.len() {
            nodes.update(j, NodeModel::Branch { node, item, nodes: nodes[j].children() })
        } else {
            nodes.push(NodeModel::Branch { node, item, nodes: Seq::empty() })
        }
    } else {
        nodes.push(NodeModel::Leaf { node, item })
    }
}

/// The entries of a directory after `node` has been added below it at
/// `path`: the builder walks down the path, through the first directory of
/// each name, making an unresolved directory at the end of the entries
/// where there is none, and puts the node among the entries that it
/// reaches.
pub open spec fn spec_add<I>(
    nodes: Seq<NodeModel<I>>,
    path: Seq<Seq<u8>>,
    node: ObjNode,
    item: I,
) -> Seq<NodeModel<I>>
    decreases path.len(),
{
    if path.len() == 0 {
        spec_place(nodes, node, item)
    } else {
        let j = spec_position_tree(nodes, path[0], 0);
        let found = if j < nodes.len() {
            nodes
        } else {
            nodes.push(NodeModel::UnresolvedBranch { sgmt: path[0], nodes: Seq::empty() })
        };
        found.update(
            j,
            found[j].with_children(spec_add(found[j].children(), path.skip(1), node, item)),
        )
    }
}

impl<I> Node<I> {
    /// A directory of which only the name is known.
    pub fn unresolved_branch(sgmt: Segment) -> (r: Self)
        ensures
            spec_node(r) == (NodeModel::<I>::UnresolvedBranch { sgmt: sgmt@, nodes: Seq::empty() }),
    {
        let r = Node::UnresolvedBranch { sgmt, tree: TreeBuilder::new() };
        proof {
            assert(spec_nodes(Seq::<Node<I>>::empty()) =~= Seq::<NodeModel<I>>::empty());
            assert(spec_node(r)->UnresolvedBranch_nodes =~= Seq::<NodeModel<I>>::empty());
        }
        r
    }

    /// A directory with nothing below it yet.
    pub fn branch(node: ObjNode, item: I) -> (r: Self)
        ensures
            spec_node(r) == (NodeModel::Branch { node, item, nodes: Seq::empty() }),
    {
        let r = Node::Branch { node, item, tree: TreeBuilder::new() };
        proof {
            assert(spec_nodes(Seq::<Node<I>>::empty()) =~= Seq::<NodeModel<I>>::empty());
            assert(spec_node(r)->Branch_nodes =~= Seq::<NodeModel<I>>::empty());
        }
        r
    }

    /// An entry that is no directory.
    pub fn leaf(node: ObjNode, item: I) -> (r: Self)
        ensures
            spec_node(r) == (NodeModel::Leaf { node, item }),
    {
        Node::Leaf { node, item }
    }

    /// The name of the entry.
    pub fn segment(&self) -> (r: &Segment)
        ensures
            r@ == spec_node(*self).segment(),
    {
        match self {
            Node::Leaf { node, .. } => &node.name,
            Node::Branch { node, .. } => &node.name,
            Node::UnresolvedBranch { sgmt, .. } => sgmt,
        }
    }

    pub fn is_leaf(&self) -> (r: bool)
        ensures
            r == spec_node(*self) is Leaf,
    {
        matches!(self, Node::Leaf { .. })
    }

    pub fn is_branch(&self) -> (r: bool)
        ensures
            r == spec_node(*self) is Branch,
    {
        matches!(self, Node::Branch { .. })
    }

    pub fn is_unresolved_branch(&self) -> (r: bool)
        ensures
            r == spec_node(*self) is UnresolvedBranch,
    {
        matches!(self, Node::UnresolvedBranch { .. })
    }

    /// Whether the entry is a directory, resolved or not.
    pub fn is_tree(&self) -> (r: bool)
        ensures
            r == spec_node(*self).is_tree(),
    {
        !matches!(self, Node::Leaf { .. })
    }

    /// The entries below a directory; `None` for a leaf.
    pub fn subtree(&self) -> (r: Option<&TreeBuilder<I>>)
        ensures
            r is Some == spec_node(*self).is_tree(),
            r matches Some(tree) ==> tree@ == spec_node(*self).children(),
    {
        match self {
            Node::Branch { tree, .. } => Some(tree),
            Node::UnresolvedBranch { tree, .. } => Some(tree),
            Node::Leaf { .. } => None,
        }
    }
}

impl<I> Default for TreeBuilder<I> {
    fn default() -> (r: Self)
        ensures
            r@ == Seq::<NodeModel<I>>::empty(),
    {
        TreeBuilder::new()
    }
}

impl<I> TreeBuilder<I> {
    /// The entries, with all that is below them.
    pub closed spec fn view(&self) -> Seq<NodeModel<I>> {
        spec_nodes(self.nodes@)
    }

    /// A builder without entries.
    pub fn new() -> (r: Self)
        ensures
            r@ == Seq::<NodeModel<I>>::empty(),
    {
        let r = TreeBuilder { nodes: Vec::new() };
        assert(r@ =~= Seq::<NodeModel<I>>::empty());
        r
    }

    /// The number of entries of this directory.
    pub fn len(&self) -> (r: usize)
        ensures
            r == self@.len(),
    {
        proof {
            lemma_spec_nodes(self.nodes@);
        }
        self.nodes.len()
    }

    /// The entry at place `i`.
    pub fn get(&self, i: usize) -> (r: &Node<I>)
        requires
            i < self@.len(),
        ensures
            spec_node(*r) == self@[i as int],
    {
        proof {
            lemma_spec_nodes(self.nodes@);
        }
        &self.nodes[i]
    }

    /// Adds the entry `node` below the directory at `path`. A directory on
    /// the way that is not there yet is made, unresolved.
    pub fn add(&mut self, path: &[Segment], node: ObjNode, item: I)
        ensures
            final(self)@ == spec_add(old(self)@, spec_segments(path@), node, item),
    {
        assert(spec_segments(path@).skip(0) =~= spec_segments(path@));
        self.add_at(path, 0, node, item)
    }

    /// Checks the tree and makes it final: see
    /// [`im::Tree::try_from_builder`].
    pub fn build(self) -> (r: Result<im::Tree<I>, im::TreeError>)
        ensures
            match im::spec_first_error(self@, Seq::empty()) {
                None => r matches Ok(tree) && tree@ == self@,
                Some(e) => r matches Err(err) && err@ == e,
            },
    {
        im::Tree::try_from_builder(self)
    }

    fn position_tree(&self, head: &Segment) -> (r: usize)
        ensures
            r == spec_position_tree(self@, head@, 0),
            r <= self@.len(),
            r < self@.len() ==> self@[r as int].is_tree() && self@[r as int].segment() == head@,
    {
        proof {
            lemma_spec_nodes(self.nodes@);
        }
        let mut i: usize = 0;
        while i < self.nodes.len()
            invariant
                i <= self.nodes@.len(),
                self@.len() == self.nodes@.len(),
                forall|j: int| 0 <= j < self.nodes@.len() ==> (#[trigger] self@[j]) == spec_node(self.nodes@[j]),
                spec_position_tree(self@, head@, 0) == spec_position_tree(self@, head@, i as int),
            decreases self.nodes@.len() - i,
        {
            let n = &self.nodes[i];
            if n.is_tree() && bytes_eq(n.segment().as_slice(), head.as_slice()) {
                return i;
            }
            i = i + 1;
        }
        i
    }

    fn position_unresolved(&self, name: &Segment) -> (r: usize)
        ensures
            r == spec_position_unresolved(self@, name@, 0),
            r <= self@.len(),
            r < self@.len() ==> self@[r as int] is UnresolvedBranch && self@[r as int].segment()
                == name@,
    {
        proof {
            lemma_spec_nodes(self.nodes@);
        }
        let mut i: usize = 0;
        while i < self.nodes.len()
            invariant
                i <= self.nodes@.len(),
                self@.len() == self.nodes@.len(),
                forall|j: int| 0 <= j < self.nodes@.len() ==> (#[trigger] self@[j]) == spec_node(self.nodes@[j]),
                spec_position_unresolved(self@, name@, 0) == spec_position_unresolved(
                    self@,
                    name@,
                    i as int,
                ),
            decreases self.nodes@.len() - i,
        {
            let n = &self.nodes[i];
            if n.is_unresolved_branch() && bytes_eq(n.segment().as_slice(), name.as_slice()) {
                return i;
            }
            i = i + 1;
        }
        i
    }

    /// Puts `node` among the entries of this directory.
    #[verifier::rlimit(50)]
    fn place(&mut self, node: ObjNode, item: I)
        ensures
            final(self)@ == spec_place(old(self)@, node, item),
    {
        proof {
            lemma_spec_nodes(self.nodes@);
        }
        if node.kind.is_dir() {
            let j = self.position_unresolved(&node.name);
            if j < self.nodes.len() {
                let mut taken: TreeBuilder<I> = TreeBuilder::new();
                match &mut self.nodes[j] {
                    Node::UnresolvedBranch { tree, .. } => {
                        std::mem::swap(tree, &mut taken);
                    },
                    _ => {},
                }
                self.nodes.set(j, Node::Branch { node, item, tree: taken });
                proof {
                    lemma_spec_nodes(self.nodes@);
                    assert(self@ =~= spec_place(old(self)@, node, item));
                }
            } else {
                self.nodes.push(Node::branch(node, item));
                proof {
                    lemma_spec_nodes(self.nodes@);
                    assert(self@ =~= spec_place(old(self)@, node, item));
                }
            }
        } else {
            self.nodes.push(Node::leaf(node, item));
            proof {
                lemma_spec_nodes(self.nodes@);
                assert(self@ =~= spec_place(old(self)@, node, item));
            }
        }
    }

    #[verifier::rlimit(50)]
    fn add_at(&mut self, path: &[Segment], depth: usize, node: ObjNode, item: I)
        requires
            depth <= path@.len(),
        ensures
            final(self)@ == spec_add(
                old(self)@,
                spec_segments(path@).skip(depth as int),
                node,
                item,
            ),
        decreases path@.len() - depth,
    {
        let ghost rest = spec_segments(path@).skip(depth as int);
        if depth == path.len() {
            self.place(node, item);
        } else {
            let head = &path[depth];
            assert(rest[0] == head@);
            assert(rest.skip(1) =~= spec_segments(path@).skip(depth + 1));
            let j = self.position_tree(head);
            proof {
                lemma_spec_nodes(self.nodes@);
            }
            if j == self.nodes.len() {
                self.nodes.push(Node::unresolved_branch(copy_bytes(head.as_slice())));
            }
            let ghost found = self.nodes@;
            proof {
                lemma_spec_nodes(found);
            }
            match &mut self.nodes[j] {
                Node::Branch { tree, .. } => {
                    tree.add_at(path, depth + 1, node, item);
                },
                Node::UnresolvedBranch { tree, .. } => {
                    tree.add_at(path, depth + 1, node, item);
                },
                Node::Leaf { .. } => {},
            }
            proof {
                lemma_spec_nodes(self.nodes@);
                assert(self.nodes@.len() == found.len());
                assert(forall|i: int| 0 <= i < found.len() && i != j ==> self.nodes@[i] == found[i]);
                assert(self@ =~= spec_add(old(self)@, rest, node, item));
            }
        }
    }
}

} // verus!
