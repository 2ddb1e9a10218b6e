//! The tree of a source once it is complete: every directory has its own
//! entry, and no two entries of a directory have the same name.

use vstd::prelude::*;
use crate::obj::tree::node::Node as ObjNode;
use crate::path::{bytes_eq, PathBuf, Segment};
use crate::process::tree::{
    lemma_spec_node, lemma_spec_nodes, spec_node, spec_nodes, NodeModel, TreeBuilder,
};
use crate::process::tree::Node as BuilderNode;
use crate::process::compress::copy_bytes;

verus! {

/// What is wrong with a tree that cannot be made final.
#[derive(Debug, Clone, Copy, PartialEq, Eq, Hash, Structural)]
pub enum TreeErrorKind {
    /// Two entries of one directory have the same name.
    DuplicateNode,
    /// Entries arrived below a directory whose own entry never did.
    UnresolvedBranch,
}

/// Why a tree could not be made final, and where.
#[derive(Debug, Clone, PartialEq, Eq)]
pub struct TreeError {
    kind: TreeErrorKind,
    path: PathBuf,
    name: Segment,
}

/// What a [`TreeError`] holds.
pub struct TreeErrorModel {
    pub kind: TreeErrorKind,
    /// The path of the directory that holds the entry at fault: the two
    /// entries of one name, or the unresolved directory.
    pub path: Seq<Seq<u8>>,
    /// The name of the second of the two entries, or of the unresolved
    /// directory.
    pub name: Seq<u8>,
}

impl View for TreeError {
    type V = TreeErrorModel;

    closed spec fn view(&self) -> TreeErrorModel {
        TreeErrorModel { kind: self.kind, path: self.path@, name: self.name@ }
    }
}

impl TreeError {
    fn duplicate(path: PathBuf, name: Segment) -> (r: Self)
        ensures
            r@ == (TreeErrorModel { kind: TreeErrorKind::DuplicateNode, path: path@, name: name@ }),
    {
        Self { kind: TreeErrorKind::DuplicateNode, path, name }
    }

    fn unresolved(path: PathBuf, name: Segment) -> (r: Self)
        ensures
            r@ == (TreeErrorModel {
                kind: TreeErrorKind::UnresolvedBranch,
                path: path@,
                name: name@,
            }),
    {
        Self { kind: TreeErrorKind::UnresolvedBranch, path, name }
    }

    pub fn kind(&self) -> (r: TreeErrorKind)
        ensures
            r == self@.kind,
    {
        self.kind
    }

    pub fn path(&self) -> (r: &PathBuf)
        ensures
            r@ == self@.path,
    {
        &self.path
    }

    pub fn name(&self) -> (r: &Segment)
        ensures
            r@ == self@.name,
    {
        &self.name
    }
}

/// One entry of a final tree.
#[derive(Debug)]
pub enum Node<I> {
    Leaf { node: ObjNode, item: I },
    Branch { node: ObjNode, item: I, tree: Tree<I> },
}

/// The entries of one directory of a final tree.
#[derive(Debug)]
pub struct Tree<I> {
    nodes: Vec<Node<I>>,
}

/// What a final node holds.
pub closed spec fn spec_im_node<I>(n: Node<I>) -> NodeModel<I>
    decreases n,
{
    match n {
        Node::Leaf { node, item } => NodeModel::Leaf { node, item },
        Node::Branch { node, item, tree } => NodeModel::Branch {
            node,
            item,
            nodes: spec_im_nodes(tree.nodes@),
        },
    }
}

/// What final nodes hold.
pub closed spec fn spec_im_nodes<I>(s: Seq<Node<I>>) -> Seq<NodeModel<I>>
    decreases s,
{
    if s.len() == 0 {
        Seq::empty()
    } else {
        spec_im_nodes(s.drop_last()).push(spec_im_node(s.last()))
    }
}

proof fn lemma_spec_im_nodes<I>(s: Seq<Node<I>>)
    ensures
        spec_im_nodes(s).len() == s.len(),
        forall|i: int| 0 <= i < s.len() ==> (#[trigger] spec_im_nodes(s)[i]) == spec_im_node(s[i]),
    decreases s.len(),
{
    if s.len() > 0 {
        lemma_spec_im_nodes(s.drop_last());
    }
}

/// Whether one of `nodes` is named `name`.
pub open spec fn spec_has_segment<I>(nodes: Seq<NodeModel<I>>, name: Seq<u8>) -> bool {
    exists|j: int| 0 <= j < nodes.len() && (#[trigger] nodes[j]).segment() == name
}

/// The first fault that a walk through the tree meets, where `path` is the
/// path of the directory that holds `nodes`. The walk takes the entries in
/// order. Of each it asks first whether an entry before it in the same
/// directory has its name; then it walks through what is below the entry;
/// then, where the entry is an unresolved directory, that is the fault,
/// reported by its name and the path of the directory that holds it.
pub open spec fn spec_first_error<I>(nodes: Seq<NodeModel<I>>, path: Seq<Seq<u8>>) -> Option<
    TreeErrorModel,
>
    decreases nodes,
{
    if nodes.len() == 0 {
        None
    } else {
        match spec_first_error(nodes.drop_last(), path) {
            Some(e) => Some(e),
            None => spec_node_error(nodes.drop_last(), nodes.last(), path),
        }
    }
}

/// The first fault that the walk meets at the entry `n`, which comes after
/// the entries `before` in the directory at `path`.
pub open spec fn spec_node_error<I>(
    before: Seq<NodeModel<I>>,
    n: NodeModel<I>,
    path: Seq<Seq<u8>>,
) -> Option<TreeErrorModel>
    decreases n,
{
    if spec_has_segment(before, n.segment()) {
        Some(TreeErrorModel { kind: TreeErrorKind::DuplicateNode, path, name: n.segment() })
    } else {
        match n {
            NodeModel::Leaf { .. } => None,
            NodeModel::Branch { node, nodes, .. } => spec_first_error(nodes, path.push(node.name@)),
            NodeModel::UnresolvedBranch { sgmt, nodes } => match spec_first_error(
                nodes,
                path.push(sgmt),
            ) {
                Some(e) => Some(e),
                None => Some(
                    TreeErrorModel { kind: TreeErrorKind::UnresolvedBranch, path, name: sgmt },
                ),
            },
        }
    }
}

impl<I> Node<I> {
    /// The name of the entry.
    pub fn segment(&self) -> (r: &Segment)
        ensures
            r@ == spec_im_node(*self).segment(),
    {
        match self {
            Node::Leaf { node, .. } => &node.name,
            Node::Branch { node, .. } => &node.name,
        }
    }

    pub fn is_leaf(&self) -> (r: bool)
        ensures
            r == spec_im_node(*self) is Leaf,
    {
        matches!(self, Node::Leaf { .. })
    }

    pub fn is_branch(&self) -> (r: bool)
        ensures
            r == spec_im_node(*self) is Branch,
    {
        matches!(self, Node::Branch { .. })
    }

    /// The entries below a directory; `None` for a leaf.
    pub fn subtree(&self) -> (r: Option<&Tree<I>>)
        ensures
            r is Some == spec_im_node(*self) is Branch,
            r matches Some(tree) ==> tree@ == spec_im_node(*self).children(),
    {
        match self {
            Node::Branch { tree, .. } => Some(tree),
            Node::Leaf { .. } => None,
        }
    }
}

impl<I> Tree<I> {
    /// The entries, with all that is below them.
    pub closed spec fn view(&self) -> Seq<NodeModel<I>> {
        spec_im_nodes(self.nodes@)
    }

    fn with_capacity(capacity: usize) -> (r: Self)
        ensures
            r@ == Seq::<NodeModel<I>>::empty(),
    {
        let r = Tree { nodes: Vec::with_capacity(capacity) };
        assert(r@ =~= Seq::<NodeModel<I>>::empty());
        r
    }

    /// The number of entries of this directory.
    pub fn len(&self) -> (r: usize)
        ensures
            r == self@.len(),
    {
        proof {
            lemma_spec_im_nodes(self.nodes@);
        }
        self.nodes.len()
    }

    /// The entry at place `i`.
    pub fn get(&self, i: usize) -> (r: &Node<I>)
        requires
            i < self@.len(),
        ensures
            spec_im_node(*r) == self@[i as int],
    {
        proof {
            lemma_spec_im_nodes(self.nodes@);
        }
        &self.nodes[i]
    }

    /// Makes the tree of a builder final. The entries stay as they are and
    /// in their order. Where the tree has a fault, the first one that a
    /// walk through it meets is the error.
    pub fn try_from_builder(builder: TreeBuilder<I>) -> (r: Result<Self, TreeError>)
        ensures
            match spec_first_error(builder@, Seq::empty()) {
                None => r matches Ok(tree) && tree@ == builder@,
                Some(e) => r matches Err(err) && err@ == e,
            },
    {
        let mut path = PathBuf::new();
        tree_from_builder(&mut path, builder)
    }
}

/// Whether an entry of `tree` is named `name`.
fn node_exists<I>(tree: &Tree<I>, name: &Segment) -> (r: bool)
    ensures
        r == spec_has_segment(tree@, name@),
{
    proof {
        lemma_spec_im_nodes(tree.nodes@);
    }
    let mut i: usize = 0;
    while i < tree.nodes.len()
        invariant
            i <= tree.nodes@.len(),
            tree@.len() == tree.nodes@.len(),
            forall|j: int| 0 <= j < tree.nodes@.len() ==> (#[trigger] tree@[j]) == spec_im_node(tree.nodes@[j]),
            forall|j: int| 0 <= j < i ==> (#[trigger] tree@[j]).segment() != name@,
        decreases tree.nodes@.len() - i,
    {
        if bytes_eq(tree.nodes[i].segment().as_slice(), name.as_slice()) {
            assert(tree@[i as int].segment() == name@);
            return true;
        }
        i = i + 1;
    }
    false
}

/// Walks through the entries of `layer`, the directory at `path`, and makes
/// them final.
#[verifier::rlimit(50)]
fn tree_from_builder<I>(path: &mut PathBuf, layer: TreeBuilder<I>) -> (r: Result<
    Tree<I>,
    TreeError,
>)
    ensures
        match spec_first_error(layer@, old(path)@) {
            None => r matches Ok(tree) && tree@ == layer@ && final(path)@ == old(path)@,
            Some(e) => r matches Err(err) && err@ == e,
        },
    decreases layer,
{
    let ghost model = layer@;
    let ghost orig = layer.nodes@;
    let ghost here = path@;
    let ghost whole = layer;
    let mut rest = layer;
    let mut tree: Tree<I> = Tree::with_capacity(rest.nodes.len());
    proof {
        lemma_spec_nodes(orig);
        assert(model.subrange(0, 0) =~= Seq::<NodeModel<I>>::empty());
    }
    let mut i: usize = 0;
    while i < rest.nodes.len()
        invariant
            i <= orig.len(),
            rest.nodes@.len() == orig.len(),
            model == spec_nodes(orig),
            model == layer@,
            here == old(path)@,
            whole == layer,
            orig == whole.nodes@,
            model.len() == orig.len(),
            forall|j: int| 0 <= j < orig.len() ==> (#[trigger] model[j]) == spec_node(orig[j]),
            forall|j: int| i <= j < orig.len() ==> rest.nodes@[j] == orig[j],
            path@ == here,
            tree@ == model.subrange(0, i as int),
            spec_first_error(model.subrange(0, i as int), here) is None,
            forall|j: int| 0 <= j < orig.len() ==> decreases_to!(whole => #[trigger] orig[j]),
        decreases orig.len() - i,
    {
        let ghost before = model.subrange(0, i as int);
        let ghost upto = model.subrange(0, i + 1);
        proof {
            assert(upto.drop_last() =~= before);
            assert(upto.last() == model[i as int]);
        }
        let mut node: BuilderNode<I> = BuilderNode::unresolved_branch(Vec::new());
        std::mem::swap(&mut node, &mut rest.nodes[i]);
        assert(node == orig[i as int]);
        proof {
            lemma_spec_node(node);
            lemma_spec_im_nodes(tree.nodes@);
        }
        if node_exists(&tree, node.segment()) {
            let name = copy_bytes(node.segment().as_slice());
            proof {
                assert(spec_has_segment(before, model[i as int].segment()));
                assert(spec_node_error(before, model[i as int], here) is Some);
                assert(spec_first_error(upto, here) == spec_node_error(
                    upto.drop_last(),
                    upto.last(),
                    here,
                ));
                lemma_error_stays(model, i + 1, here);
                assert(spec_first_error(model, here) == Some(
                    TreeErrorModel {
                        kind: TreeErrorKind::DuplicateNode,
                        path: here,
                        name: model[i as int].segment(),
                    },
                ));
            }
            return Err(TreeError::duplicate(path.duplicate(), name));
        }
        match node {
            BuilderNode::Leaf { node, item } => {
                tree.nodes.push(Node::Leaf { node, item });
            },
            BuilderNode::Branch { node, item, tree: sub } => {
                path.push(copy_bytes(node.name.as_slice()));
                proof {
                    assert(decreases_to!(whole => orig[i as int]));
                    assert(decreases_to!(orig[i as int] => sub));
                }
                match tree_from_builder(path, sub) {
                    Err(e) => {
                        proof {
                            assert(spec_node_error(before, model[i as int], here) is Some);
                            assert(spec_first_error(upto, here) == spec_node_error(
                                upto.drop_last(),
                                upto.last(),
                                here,
                            ));
                            lemma_error_stays(model, i + 1, here);
                        }
                        return Err(e);
                    },
                    Ok(subtree) => {
                        let _ = path.pop();
                        assert(path@ =~= here);
                        tree.nodes.push(Node::Branch { node, item, tree: subtree });
                    },
                }
            },
            BuilderNode::UnresolvedBranch { sgmt, tree: sub } => {
                path.push(copy_bytes(sgmt.as_slice()));
                proof {
                    assert(decreases_to!(whole => orig[i as int]));
                    assert(decreases_to!(orig[i as int] => sub));
                    assert(spec_node_error(before, model[i as int], here) is Some);
                    assert(spec_first_error(upto, here) == spec_node_error(
                        upto.drop_last(),
                        upto.last(),
                        here,
                    ));
                    lemma_error_stays(model, i + 1, here);
                }
                match tree_from_builder(path, sub) {
                    Err(e) => {
                        return Err(e);
                    },
                    Ok(_) => {
                        let _ = path.pop();
                        assert(path@ =~= here);
                        return Err(TreeError::unresolved(path.duplicate(), sgmt));
                    },
                }
            },
        }
        proof {
            lemma_spec_im_nodes(tree.nodes@);
            assert(tree@ =~= upto);
        }
        i = i + 1;
    }
    proof {
        assert(model.subrange(0, i as int) =~= model);
    }
    Ok(tree)
}

/// A fault that the walk has met in the first `n` entries is the first
/// fault of the directory.
pub proof fn lemma_error_stays<I>(nodes: Seq<NodeModel<I>>, n: int, path: Seq<Seq<u8>>)
    requires
        0 <= n <= nodes.len(),
        spec_first_error(nodes.subrange(0, n), path) is Some,
    ensures
        spec_first_error(nodes, path) == spec_first_error(nodes.subrange(0, n), path),
    decreases nodes.len() - n,
{
    if n < nodes.len() {
        let next = nodes.subrange(0, n + 1);
        assert(next.drop_last() =~= nodes.subrange(0, n));
        lemma_error_stays(nodes, n + 1, path);
    } else {
        assert(nodes.subrange(0, n) =~= nodes);
    }
}


impl TreeErrorKind {
    pub open spec fn spec_name(self) -> Seq<char> {
        match self {
            TreeErrorKind::DuplicateNode => "DuplicateNode"@,
            TreeErrorKind::UnresolvedBranch => "UnresolvedBranch"@,
        }
    }

    /// The name of the fault.
    pub fn name(&self) -> (r: &'static str)
        ensures
            r@ == self.spec_name(),
    {
        match self {
            TreeErrorKind::DuplicateNode => "DuplicateNode",
            TreeErrorKind::UnresolvedBranch => "UnresolvedBranch",
        }
    }
}

} // verus!
