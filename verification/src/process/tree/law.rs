//! What holds of every tree that the builder makes.

use vstd::prelude::*;
use crate::obj::tree::node::Node as ObjNode;
use crate::process::tree::im::{
    lemma_error_stays, spec_first_error, spec_has_segment, spec_node_error, TreeErrorKind,
    TreeErrorModel,
};
use crate::process::tree::{
    spec_add, spec_place, spec_position_tree, spec_position_unresolved, NodeModel,
};

verus! {

/// One entry as it is handed to the builder: the path of the directory that
/// holds it, the node, and the item.
pub struct Entry<I> {
    pub path: Seq<Seq<u8>>,
    pub node: ObjNode,
    pub item: I,
}

impl<I> Entry<I> {
    /// The path of the entry itself.
    pub open spec fn full(self) -> Seq<Seq<u8>> {
        self.path.push(self.node.name@)
    }

    /// Whether the entry is a directory.
    pub open spec fn is_dir(self) -> bool {
        self.node.kind is Directory
    }

    /// Whether the entry lies in the directory at `q` under the name `name`
    /// and is a directory, or is none, as `dir` says.
    pub open spec fn is_at(self, q: Seq<Seq<u8>>, name: Seq<u8>, dir: bool) -> bool {
        self.path == q && self.node.name@ == name && self.is_dir() == dir
    }
}

/// Whether the path `p` is the beginning of the path `s`.
pub open spec fn spec_is_prefix(p: Seq<Seq<u8>>, s: Seq<Seq<u8>>) -> bool {
    p.len() <= s.len() && s.subrange(0, p.len() as int) == p
}

/// The tree that the builder holds after the entries have been added to an
/// empty builder, one after the other.
pub open spec fn spec_build_all<I>(entries: Seq<Entry<I>>) -> Seq<NodeModel<I>>
    decreases entries.len(),
{
    if entries.len() == 0 {
        Seq::empty()
    } else {
        let last = entries.last();
        spec_add(spec_build_all(entries.drop_last()), last.path, last.node, last.item)
    }
}

/// No two entries have the same path.
pub open spec fn spec_no_duplicates<I>(entries: Seq<Entry<I>>) -> bool {
    forall|i: int, j: int|
        0 <= i < j < entries.len() ==> (#[trigger] entries[i]).full() != (#[trigger] entries[j]).full()
}

/// Every directory that an entry lies below, at whatever depth, is itself
/// among the entries.
pub open spec fn spec_all_supplied<I>(entries: Seq<Entry<I>>) -> bool {
    forall|i: int, k: int|
        0 <= i < entries.len() && 0 < k <= entries[i].path.len() ==> spec_has_dir(
            entries,
            #[trigger] entries[i].path.subrange(0, k),
        )
}

/// Whether a directory with the path `full` is among the entries.
pub open spec fn spec_has_dir<I>(entries: Seq<Entry<I>>, full: Seq<Seq<u8>>) -> bool {
    exists|j: int|
        0 <= j < entries.len() && (#[trigger] entries[j]).is_dir() && entries[j].full() == full
}

/// No entry lies below the path of an entry that is no directory.
spec fn spec_no_file_on_path<I>(l: Seq<Entry<I>>) -> bool {
    forall|i: int, j: int|
        0 <= i < l.len() && 0 <= j < l.len() && !(#[trigger] l[i]).is_dir() ==> !spec_is_prefix(
            l[i].full(),
            (#[trigger] l[j]).path,
        )
}

spec fn spec_has_entry<I>(l: Seq<Entry<I>>, q: Seq<Seq<u8>>, name: Seq<u8>, dir: bool) -> bool {
    exists|i: int| 0 <= i < l.len() && (#[trigger] l[i]).is_at(q, name, dir)
}

spec fn spec_references<I>(l: Seq<Entry<I>>, r: Seq<Seq<u8>>) -> bool {
    exists|i: int| 0 <= i < l.len() && spec_is_prefix(r, (#[trigger] l[i]).path)
}

spec fn spec_is_node<I>(n: NodeModel<I>, name: Seq<u8>, dir: bool) -> bool {
    n.segment() == name && if dir {
        n is Branch
    } else {
        n is Leaf
    }
}

spec fn spec_has_node<I>(t: Seq<NodeModel<I>>, name: Seq<u8>, dir: bool) -> bool {
    exists|j: int| 0 <= j < t.len() && spec_is_node(#[trigger] t[j], name, dir)
}

spec fn spec_is_tree_named<I>(n: NodeModel<I>, name: Seq<u8>) -> bool {
    n.segment() == name && n.is_tree()
}

spec fn spec_has_tree<I>(t: Seq<NodeModel<I>>, name: Seq<u8>) -> bool {
    exists|j: int| 0 <= j < t.len() && spec_is_tree_named(#[trigger] t[j], name)
}

spec fn spec_distinct<I>(t: Seq<NodeModel<I>>) -> bool {
    forall|a: int, b: int|
        0 <= a < b < t.len() ==> (#[trigger] t[a]).segment() != (#[trigger] t[b]).segment()
}

/// Whether the tree has a node for the entry `x`, as far as the directory
/// at `q` is concerned: the node itself where `x` lies in the directory,
/// the directory on the way to it where it lies deeper.
spec fn spec_covered<I>(t: Seq<NodeModel<I>>, x: Entry<I>, q: Seq<Seq<u8>>) -> bool {
    &&& x.path == q ==> spec_has_node(t, x.node.name@, x.is_dir())
    &&& spec_is_prefix(q, x.path) && x.path.len() > q.len() ==> spec_has_tree(
        t,
        x.path[q.len() as int],
    )
}

/// The tree `t` of the directory at `q` is the tree of the entries `l`:
/// its nodes have distinct names, each stands for entries, and each entry
/// has its node.
spec fn spec_inv<I>(t: Seq<NodeModel<I>>, l: Seq<Entry<I>>, q: Seq<Seq<u8>>) -> bool
    decreases t, 1int,
{
    &&& spec_distinct(t)
    &&& spec_nodes_ok(t, l, q)
    &&& forall|i: int| 0 <= i < l.len() ==> spec_covered(t, #[trigger] l[i], q)
}

spec fn spec_nodes_ok<I>(t: Seq<NodeModel<I>>, l: Seq<Entry<I>>, q: Seq<Seq<u8>>) -> bool
    decreases t, 0int,
{
    if t.len() == 0 {
        true
    } else {
        spec_nodes_ok(t.drop_last(), l, q) && spec_node_ok(t.last(), l, q)
    }
}

spec fn spec_node_ok<I>(n: NodeModel<I>, l: Seq<Entry<I>>, q: Seq<Seq<u8>>) -> bool
    decreases n, 2int,
{
    match n {
        NodeModel::Leaf { node, .. } => spec_has_entry(l, q, node.name@, false),
        NodeModel::Branch { node, nodes, .. } => spec_has_entry(l, q, node.name@, true) && spec_inv(
            nodes,
            l,
            q.push(node.name@),
        ),
        NodeModel::UnresolvedBranch { sgmt, nodes } => spec_references(l, q.push(sgmt))
            && !spec_has_entry(l, q, sgmt, true) && spec_inv(nodes, l, q.push(sgmt)),
    }
}

proof fn lemma_nodes_ok<I>(t: Seq<NodeModel<I>>, l: Seq<Entry<I>>, q: Seq<Seq<u8>>)
    ensures
        spec_nodes_ok(t, l, q) <==> forall|j: int|
            0 <= j < t.len() ==> spec_node_ok(#[trigger] t[j], l, q),
    decreases t.len(),
{
    if t.len() > 0 {
        lemma_nodes_ok(t.drop_last(), l, q);
        let front = t.drop_last();
        assert(forall|j: int| 0 <= j < front.len() ==> front[j] == t[j]);
        if spec_nodes_ok(t, l, q) {
            assert forall|j: int| 0 <= j < t.len() implies spec_node_ok(#[trigger] t[j], l, q) by {
                if j < front.len() {
                    assert(front[j] == t[j]);
                }
            }
        }
        if forall|j: int| 0 <= j < t.len() ==> spec_node_ok(#[trigger] t[j], l, q) {
            assert forall|j: int| 0 <= j < front.len() implies spec_node_ok(
                #[trigger] front[j],
                l,
                q,
            ) by {
                assert(front[j] == t[j]);
            }
            assert(spec_node_ok(t[t.len() - 1], l, q));
        }
    }
}

proof fn lemma_prefix_push(q: Seq<Seq<u8>>, name: Seq<u8>, s: Seq<Seq<u8>>)
    ensures
        spec_is_prefix(q.push(name), s) <==> spec_is_prefix(q, s) && s.len() > q.len() && s[q.len() as int]
            == name,
{
    let p = q.push(name);
    if spec_is_prefix(p, s) {
        assert(s.subrange(0, p.len() as int)[q.len() as int] == p[q.len() as int]);
        assert(s.subrange(0, q.len() as int) =~= q) by {
            assert forall|i: int| 0 <= i < q.len() implies s[i] == q[i] by {
                assert(s.subrange(0, p.len() as int)[i] == p[i]);
            }
        }
    }
    if spec_is_prefix(q, s) && s.len() > q.len() && s[q.len() as int] == name {
        assert(s.subrange(0, p.len() as int) =~= p) by {
            assert forall|i: int| 0 <= i < p.len() implies s[i] == p[i] by {
                if i < q.len() {
                    assert(s.subrange(0, q.len() as int)[i] == q[i]);
                }
            }
        }
    }
}

proof fn lemma_push_eq(a: Seq<Seq<u8>>, x: Seq<u8>, b: Seq<Seq<u8>>, y: Seq<u8>)
    requires
        a.push(x) == b.push(y),
    ensures
        a == b,
        x == y,
{
    assert(a.push(x).len() == a.len() + 1);
    assert(b.push(y).len() == b.len() + 1);
    assert(a.len() == b.len());
    assert(a.push(x)[a.len() as int] == x);
    assert(b.push(y)[b.len() as int] == y);
    assert(a =~= b) by {
        assert forall|i: int| 0 <= i < a.len() implies a[i] == b[i] by {
            assert(a.push(x)[i] == a[i]);
            assert(b.push(y)[i] == b[i]);
        }
    }
}

/// An entry that does not lie below the directory at `q` leaves the tree of
/// that directory as good as it was.
proof fn lemma_frame<I>(t: Seq<NodeModel<I>>, l: Seq<Entry<I>>, x: Entry<I>, q: Seq<Seq<u8>>)
    requires
        spec_inv(t, l, q),
        !spec_is_prefix(q, x.path),
    ensures
        spec_inv(t, l.push(x), q),
    decreases t,
{
    let l2 = l.push(x);
    lemma_nodes_ok(t, l, q);
    assert(x.path != q) by {
        if x.path == q {
            assert(x.path.subrange(0, q.len() as int) =~= q);
        }
    }
    assert forall|j: int| 0 <= j < t.len() implies spec_node_ok(#[trigger] t[j], l2, q) by {
        lemma_prefix_push(q, t[j].segment(), x.path);
        lemma_node_frame(t[j], l, x, q);
    }
    lemma_nodes_ok(t, l2, q);
    assert forall|i: int| 0 <= i < l2.len() implies spec_covered(t, #[trigger] l2[i], q) by {
        if i < l.len() {
            assert(l2[i] == l[i]);
        }
    }
}

proof fn lemma_entries_push<I>(l: Seq<Entry<I>>, x: Entry<I>)
    ensures
        forall|q: Seq<Seq<u8>>, name: Seq<u8>, dir: bool| #[trigger]
            spec_has_entry(l, q, name, dir) ==> spec_has_entry(l.push(x), q, name, dir),
        forall|r: Seq<Seq<u8>>| #[trigger] spec_references(l, r) ==> spec_references(l.push(x), r),
        forall|q: Seq<Seq<u8>>, name: Seq<u8>, dir: bool| #[trigger]
            spec_has_entry(l.push(x), q, name, dir) ==> spec_has_entry(l, q, name, dir) || x.is_at(
                q,
                name,
                dir,
            ),
{
    let l2 = l.push(x);
    assert forall|q: Seq<Seq<u8>>, name: Seq<u8>, dir: bool| #[trigger]
        spec_has_entry(l, q, name, dir) implies spec_has_entry(l2, q, name, dir) by {
        let i = choose|i: int| 0 <= i < l.len() && (#[trigger] l[i]).is_at(q, name, dir);
        assert(l2[i].is_at(q, name, dir));
    }
    assert forall|r: Seq<Seq<u8>>| #[trigger] spec_references(l, r) implies spec_references(
        l2,
        r,
    ) by {
        let i = choose|i: int| 0 <= i < l.len() && spec_is_prefix(r, (#[trigger] l[i]).path);
        assert(spec_is_prefix(r, l2[i].path));
    }
    assert forall|q: Seq<Seq<u8>>, name: Seq<u8>, dir: bool| #[trigger]
        spec_has_entry(l2, q, name, dir) implies spec_has_entry(l, q, name, dir) || x.is_at(
        q,
        name,
        dir,
    ) by {
        let i = choose|i: int| 0 <= i < l2.len() && (#[trigger] l2[i]).is_at(q, name, dir);
        if i < l.len() {
            assert(l[i].is_at(q, name, dir));
        }
    }
}

proof fn lemma_node_frame<I>(n: NodeModel<I>, l: Seq<Entry<I>>, x: Entry<I>, q: Seq<Seq<u8>>)
    requires
        spec_node_ok(n, l, q),
        !spec_is_prefix(q.push(n.segment()), x.path),
        n is UnresolvedBranch ==> !x.is_at(q, n.segment(), true),
    ensures
        spec_node_ok(n, l.push(x), q),
    decreases n,
{
    lemma_entries_push(l, x);
    match n {
        NodeModel::Leaf { .. } => {},
        NodeModel::Branch { node, nodes, .. } => {
            lemma_frame(nodes, l, x, q.push(node.name@));
        },
        NodeModel::UnresolvedBranch { sgmt, nodes } => {
            lemma_frame(nodes, l, x, q.push(sgmt));
        },
    }
}


proof fn lemma_position_tree<I>(t: Seq<NodeModel<I>>, head: Seq<u8>, from: int)
    requires
        0 <= from <= t.len(),
    ensures
        from <= spec_position_tree(t, head, from) <= t.len(),
        spec_position_tree(t, head, from) < t.len() ==> spec_is_tree_named(
            t[spec_position_tree(t, head, from)],
            head,
        ),
        forall|k: int|
            from <= k < spec_position_tree(t, head, from) ==> !spec_is_tree_named(
                #[trigger] t[k],
                head,
            ),
    decreases t.len() - from,
{
    if from < t.len() && !(t[from].segment() == head && t[from].is_tree()) {
        lemma_position_tree(t, head, from + 1);
    }
}

proof fn lemma_position_unresolved<I>(t: Seq<NodeModel<I>>, name: Seq<u8>, from: int)
    requires
        0 <= from <= t.len(),
    ensures
        from <= spec_position_unresolved(t, name, from) <= t.len(),
        spec_position_unresolved(t, name, from) < t.len() ==> t[spec_position_unresolved(
            t,
            name,
            from,
        )].segment() == name && t[spec_position_unresolved(t, name, from)] is UnresolvedBranch,
        forall|k: int|
            from <= k < spec_position_unresolved(t, name, from) ==> !((#[trigger] t[k]).segment()
                == name && t[k] is UnresolvedBranch),
    decreases t.len() - from,
{
    if from < t.len() && !(t[from].segment() == name && t[from] is UnresolvedBranch) {
        lemma_position_unresolved(t, name, from + 1);
    }
}

/// What the entry `x` must be to the entries `l` that came before it.
spec fn spec_fits<I>(l: Seq<Entry<I>>, x: Entry<I>) -> bool {
    &&& forall|i: int| 0 <= i < l.len() ==> (#[trigger] l[i]).full() != x.full()
    &&& forall|i: int|
        0 <= i < l.len() && !(#[trigger] l[i]).is_dir() ==> !spec_is_prefix(l[i].full(), x.path)
    &&& !x.is_dir() ==> forall|i: int|
        0 <= i < l.len() ==> !spec_is_prefix(x.full(), (#[trigger] l[i]).path)
}

/// No leaf and no resolved directory of the tree has the name of a new
/// entry of the same directory.
proof fn lemma_no_resolved_named<I>(
    t: Seq<NodeModel<I>>,
    l: Seq<Entry<I>>,
    x: Entry<I>,
    q: Seq<Seq<u8>>,
)
    requires
        spec_inv(t, l, q),
        x.path == q,
        spec_fits(l, x),
    ensures
        forall|j: int|
            0 <= j < t.len() && !((#[trigger] t[j]) is UnresolvedBranch) ==> t[j].segment()
                != x.node.name@,
        !x.is_dir() ==> forall|j: int| 0 <= j < t.len() ==> (#[trigger] t[j]).segment() != x.node.name@,
{
    let name = x.node.name@;
    lemma_nodes_ok(t, l, q);
    assert forall|j: int| 0 <= j < t.len() && !((#[trigger] t[j]) is UnresolvedBranch) implies t[j].segment()
        != name by {
        if t[j].segment() == name {
            assert(spec_node_ok(t[j], l, q));
            let dir = t[j] is Branch;
            assert(spec_has_entry(l, q, name, dir));
            let i = choose|i: int| 0 <= i < l.len() && (#[trigger] l[i]).is_at(q, name, dir);
            assert(l[i].full() == x.full());
        }
    }
    if !x.is_dir() {
        assert forall|j: int| 0 <= j < t.len() implies (#[trigger] t[j]).segment() != name by {
            if t[j].segment() == name && t[j] is UnresolvedBranch {
                assert(spec_node_ok(t[j], l, q));
                assert(spec_references(l, q.push(name)));
                let i = choose|i: int|
                    0 <= i < l.len() && spec_is_prefix(q.push(name), (#[trigger] l[i]).path);
                assert(spec_is_prefix(x.full(), l[i].path));
            }
        }
    }
}

/// Where no directory of the tree at `q` is named `head`, no entry lies
/// below the directory of that name.
proof fn lemma_empty_inv<I>(t: Seq<NodeModel<I>>, l: Seq<Entry<I>>, q: Seq<Seq<u8>>, head: Seq<u8>)
    requires
        spec_inv(t, l, q),
        !spec_has_tree(t, head),
    ensures
        spec_inv(Seq::<NodeModel<I>>::empty(), l, q.push(head)),
{
    let q2 = q.push(head);
    let none = Seq::<NodeModel<I>>::empty();
    assert forall|i: int| 0 <= i < l.len() implies spec_covered(none, #[trigger] l[i], q2) by {
        lemma_prefix_push(q, head, l[i].path);
        assert(spec_covered(t, l[i], q));
        if l[i].path == q2 {
            assert(l[i].path.subrange(0, q2.len() as int) =~= q2);
        }
    }
}

#[verifier::rlimit(50)]
proof fn lemma_place<I>(t: Seq<NodeModel<I>>, l: Seq<Entry<I>>, x: Entry<I>, q: Seq<Seq<u8>>)
    requires
        spec_inv(t, l, q),
        x.path == q,
        spec_fits(l, x),
    ensures
        spec_inv(spec_place(t, x.node, x.item), l.push(x), q),
{
    let l2 = l.push(x);
    let name = x.node.name@;
    let t2 = spec_place(t, x.node, x.item);
    let q2 = q.push(name);
    lemma_nodes_ok(t, l, q);
    lemma_entries_push(l, x);
    lemma_no_resolved_named(t, l, x, q);
    lemma_prefix_push(q, name, q);
    assert(l2[l.len() as int] == x);
    assert(x.is_at(q, name, x.is_dir()));
    assert(spec_has_entry(l2, q, name, x.is_dir()));
    let j = spec_position_unresolved(t, name, 0);
    lemma_position_unresolved(t, name, 0);
    if x.is_dir() && j < t.len() {
        assert forall|k: int| 0 <= k < t2.len() implies (#[trigger] t2[k]).segment()
            == t[k].segment() by {}
        assert(spec_distinct(t2)) by {
            assert forall|a: int, b: int| 0 <= a < b < t2.len() implies (#[trigger] t2[a]).segment() != (
            #[trigger] t2[b]).segment() by {
                assert(t[a].segment() != t[b].segment());
            }
        }
        assert forall|k: int| 0 <= k < t2.len() implies spec_node_ok(#[trigger] t2[k], l2, q) by {
            assert(spec_node_ok(t[k], l, q));
            if k == j {
                lemma_frame(t[j].children(), l, x, q2);
            } else {
                if j < k {
                    assert(t[j].segment() != t[k].segment());
                } else {
                    assert(t[k].segment() != t[j].segment());
                }
                lemma_prefix_push(q, t[k].segment(), x.path);
                lemma_node_frame(t[k], l, x, q);
            }
        }
        lemma_nodes_ok(t2, l2, q);
        assert forall|i: int| 0 <= i < l2.len() implies spec_covered(t2, #[trigger] l2[i], q) by {
            if i < l.len() {
                assert(l2[i] == l[i]);
                assert(spec_covered(t, l[i], q));
                if l[i].path == q {
                    let j0 = choose|j0: int|
                        0 <= j0 < t.len() && spec_is_node(
                            #[trigger] t[j0],
                            l[i].node.name@,
                            l[i].is_dir(),
                        );
                    assert(spec_is_node(t2[j0], l[i].node.name@, l[i].is_dir()));
                }
                if spec_is_prefix(q, l[i].path) && l[i].path.len() > q.len() {
                    let h = l[i].path[q.len() as int];
                    let j0 = choose|j0: int| 0 <= j0 < t.len() && spec_is_tree_named(#[trigger] t[j0], h);
                    assert(spec_is_tree_named(t2[j0], h));
                }
            } else {
                assert(spec_is_node(t2[j], name, true));
            }
        }
    } else {
        assert forall|k: int| 0 <= k < t.len() implies (#[trigger] t[k]).segment() != name by {}
        let new = t2[t.len() as int];
        assert(t2.len() == t.len() + 1);
        assert forall|k: int| 0 <= k < t.len() implies t2[k] == t[k] by {}
        assert(new.segment() == name);
        assert(spec_distinct(t2)) by {
            assert forall|a: int, b: int| 0 <= a < b < t2.len() implies (#[trigger] t2[a]).segment() != (
            #[trigger] t2[b]).segment() by {
                if b < t.len() {
                    assert(t[a].segment() != t[b].segment());
                } else {
                    assert(t[a].segment() != name);
                }
            }
        }
        assert(!spec_has_tree(t, name)) by {
            if spec_has_tree(t, name) {
                let j0 = choose|j0: int| 0 <= j0 < t.len() && spec_is_tree_named(#[trigger] t[j0], name);
                assert(t[j0].segment() != name);
            }
        }
        assert forall|k: int| 0 <= k < t2.len() implies spec_node_ok(#[trigger] t2[k], l2, q) by {
            if k < t.len() {
                assert(spec_node_ok(t[k], l, q));
                lemma_prefix_push(q, t[k].segment(), x.path);
                lemma_node_frame(t[k], l, x, q);
            } else {
                if x.is_dir() {
                    lemma_empty_inv(t, l, q, name);
                    lemma_frame(Seq::<NodeModel<I>>::empty(), l, x, q2);
                }
            }
        }
        lemma_nodes_ok(t2, l2, q);
        assert forall|i: int| 0 <= i < l2.len() implies spec_covered(t2, #[trigger] l2[i], q) by {
            if i < l.len() {
                assert(l2[i] == l[i]);
                assert(spec_covered(t, l[i], q));
                if l[i].path == q {
                    let j0 = choose|j0: int|
                        0 <= j0 < t.len() && spec_is_node(
                            #[trigger] t[j0],
                            l[i].node.name@,
                            l[i].is_dir(),
                        );
                    assert(spec_is_node(t2[j0], l[i].node.name@, l[i].is_dir()));
                }
                if spec_is_prefix(q, l[i].path) && l[i].path.len() > q.len() {
                    let h = l[i].path[q.len() as int];
                    let j0 = choose|j0: int| 0 <= j0 < t.len() && spec_is_tree_named(#[trigger] t[j0], h);
                    assert(spec_is_tree_named(t2[j0], h));
                }
            } else {
                assert(spec_is_node(t2[t.len() as int], name, x.is_dir()));
            }
        }
    }
}

/// Adding an entry that fits the entries before it keeps the tree the tree
/// of its entries.
#[verifier::rlimit(50)]
proof fn lemma_add<I>(t: Seq<NodeModel<I>>, l: Seq<Entry<I>>, x: Entry<I>, q: Seq<Seq<u8>>)
    requires
        spec_inv(t, l, q),
        spec_is_prefix(q, x.path),
        spec_fits(l, x),
    ensures
        spec_inv(spec_add(t, x.path.skip(q.len() as int), x.node, x.item), l.push(x), q),
    decreases x.path.len() - q.len(),
{
    let rest = x.path.skip(q.len() as int);
    let l2 = l.push(x);
    if rest.len() == 0 {
        assert(x.path =~= q) by {
            assert(x.path.subrange(0, q.len() as int) =~= x.path);
        }
        lemma_place(t, l, x, q);
    } else {
        let head = rest[0];
        assert(head == x.path[q.len() as int]);
        let q2 = q.push(head);
        lemma_prefix_push(q, head, x.path);
        assert(rest.skip(1) =~= x.path.skip(q2.len() as int));
        let j = spec_position_tree(t, head, 0);
        lemma_position_tree(t, head, 0);
        lemma_nodes_ok(t, l, q);
        lemma_entries_push(l, x);
        assert(l2[l.len() as int] == x);
        let t2 = spec_add(t, rest, x.node, x.item);
        if j < t.len() {
            let kids = t[j].children();
            assert(spec_node_ok(t[j], l, q));
            assert(spec_inv(kids, l, q2));
            lemma_add(kids, l, x, q2);
            let kids2 = spec_add(kids, x.path.skip(q2.len() as int), x.node, x.item);
            assert(t2 == t.update(j, t[j].with_children(kids2)));
            assert forall|k: int| 0 <= k < t2.len() implies (#[trigger] t2[k]).segment()
                == t[k].segment() by {}
            assert(spec_distinct(t2)) by {
                assert forall|a: int, b: int| 0 <= a < b < t2.len() implies (
                #[trigger] t2[a]).segment() != (#[trigger] t2[b]).segment() by {
                    assert(t[a].segment() != t[b].segment());
                }
            }
            assert forall|k: int| 0 <= k < t2.len() implies spec_node_ok(#[trigger] t2[k], l2, q) by {
                assert(spec_node_ok(t[k], l, q));
                if k != j {
                    if j < k {
                        assert(t[j].segment() != t[k].segment());
                    } else {
                        assert(t[k].segment() != t[j].segment());
                    }
                    lemma_prefix_push(q, t[k].segment(), x.path);
                    lemma_node_frame(t[k], l, x, q);
                }
            }
            lemma_nodes_ok(t2, l2, q);
            assert forall|i: int| 0 <= i < l2.len() implies spec_covered(t2, #[trigger] l2[i], q) by {
                if i < l.len() {
                    assert(l2[i] == l[i]);
                    assert(spec_covered(t, l[i], q));
                    if l[i].path == q {
                        let j0 = choose|j0: int|
                            0 <= j0 < t.len() && spec_is_node(
                                #[trigger] t[j0],
                                l[i].node.name@,
                                l[i].is_dir(),
                            );
                        assert(spec_is_node(t2[j0], l[i].node.name@, l[i].is_dir()));
                    }
                    if spec_is_prefix(q, l[i].path) && l[i].path.len() > q.len() {
                        let h = l[i].path[q.len() as int];
                        let j0 = choose|j0: int|
                            0 <= j0 < t.len() && spec_is_tree_named(#[trigger] t[j0], h);
                        assert(spec_is_tree_named(t2[j0], h));
                    }
                } else {
                    assert(spec_is_tree_named(t2[j], head));
                }
            }
        } else {
            let none = Seq::<NodeModel<I>>::empty();
            assert(!spec_has_tree(t, head)) by {
                if spec_has_tree(t, head) {
                    let j0 = choose|j0: int| 0 <= j0 < t.len() && spec_is_tree_named(#[trigger] t[j0], head);
                    assert(!spec_is_tree_named(t[j0], head));
                }
            }
            lemma_empty_inv(t, l, q, head);
            lemma_add(none, l, x, q2);
            let kids2 = spec_add(none, x.path.skip(q2.len() as int), x.node, x.item);
            let found = t.push(NodeModel::UnresolvedBranch { sgmt: head, nodes: none });
            assert(found[j].children() =~= none);
            assert(t2 == found.update(j, found[j].with_children(kids2)));
            assert(t2.len() == t.len() + 1);
            assert forall|k: int| 0 <= k < t.len() implies t2[k] == t[k] by {}
            assert(t2[j] == (NodeModel::<I>::UnresolvedBranch { sgmt: head, nodes: kids2 }));
            assert forall|k: int| 0 <= k < t.len() implies (#[trigger] t[k]).segment() != head by {
                if t[k].segment() == head {
                    assert(!spec_is_tree_named(t[k], head));
                    assert(spec_node_ok(t[k], l, q));
                    assert(spec_has_entry(l, q, head, false));
                    let i = choose|i: int| 0 <= i < l.len() && (#[trigger] l[i]).is_at(q, head, false);
                    assert(l[i].full() == q2);
                }
            }
            assert(spec_distinct(t2)) by {
                assert forall|a: int, b: int| 0 <= a < b < t2.len() implies (
                #[trigger] t2[a]).segment() != (#[trigger] t2[b]).segment() by {
                    if b < t.len() {
                        assert(t[a].segment() != t[b].segment());
                    } else {
                        assert(t[a].segment() != head);
                    }
                }
            }
            assert(x.path != q);
            assert(!spec_has_entry(l, q, head, true)) by {
                if spec_has_entry(l, q, head, true) {
                    let i = choose|i: int| 0 <= i < l.len() && (#[trigger] l[i]).is_at(q, head, true);
                    assert(spec_covered(t, l[i], q));
                    let j0 = choose|j0: int|
                        0 <= j0 < t.len() && spec_is_node(#[trigger] t[j0], head, true);
                    assert(t[j0].segment() != head);
                }
            }
            assert(spec_references(l2, q2)) by {
                assert(spec_is_prefix(q2, l2[l.len() as int].path));
            }
            assert forall|k: int| 0 <= k < t2.len() implies spec_node_ok(#[trigger] t2[k], l2, q) by {
                if k < t.len() {
                    assert(spec_node_ok(t[k], l, q));
                    lemma_prefix_push(q, t[k].segment(), x.path);
                    lemma_node_frame(t[k], l, x, q);
                }
            }
            lemma_nodes_ok(t2, l2, q);
            assert forall|i: int| 0 <= i < l2.len() implies spec_covered(t2, #[trigger] l2[i], q) by {
                if i < l.len() {
                    assert(l2[i] == l[i]);
                    assert(spec_covered(t, l[i], q));
                    if l[i].path == q {
                        let j0 = choose|j0: int|
                            0 <= j0 < t.len() && spec_is_node(
                                #[trigger] t[j0],
                                l[i].node.name@,
                                l[i].is_dir(),
                            );
                        assert(spec_is_node(t2[j0], l[i].node.name@, l[i].is_dir()));
                    }
                    if spec_is_prefix(q, l[i].path) && l[i].path.len() > q.len() {
                        let h = l[i].path[q.len() as int];
                        let j0 = choose|j0: int|
                            0 <= j0 < t.len() && spec_is_tree_named(#[trigger] t[j0], h);
                        assert(spec_is_tree_named(t2[j0], h));
                    }
                } else {
                    assert(spec_is_tree_named(t2[j], head));
                }
            }
        }
    }
}


/// Entries without duplicates, whose directories are all supplied, never
/// lie below an entry that is no directory.
proof fn lemma_supplied_no_file<I>(l: Seq<Entry<I>>)
    requires
        spec_no_duplicates(l),
        spec_all_supplied(l),
    ensures
        spec_no_file_on_path(l),
{
    assert forall|i: int, j: int|
        0 <= i < l.len() && 0 <= j < l.len() && !(#[trigger] l[i]).is_dir() implies !spec_is_prefix(
        l[i].full(),
        (#[trigger] l[j]).path,
    ) by {
        if spec_is_prefix(l[i].full(), l[j].path) {
            let k = l[i].full().len() as int;
            assert(spec_has_dir(l, l[j].path.subrange(0, k)));
            let d = choose|d: int|
                0 <= d < l.len() && (#[trigger] l[d]).is_dir() && l[d].full() == l[i].full();
            if d < i {
                assert(l[d].full() != l[i].full());
            } else {
                assert(l[i].full() != l[d].full());
            }
        }
    }
}

/// The tree that the builder makes of entries without duplicates, none of
/// which lies below an entry that is no directory, is the tree of those
/// entries.
#[verifier::rlimit(50)]
proof fn lemma_build_all_inv<I>(l: Seq<Entry<I>>)
    requires
        spec_no_duplicates(l),
        spec_no_file_on_path(l),
    ensures
        spec_inv(spec_build_all(l), l, Seq::empty()),
    decreases l.len(),
{
    let root = Seq::<Seq<u8>>::empty();
    if l.len() == 0 {
        assert(spec_nodes_ok(Seq::<NodeModel<I>>::empty(), l, root));
    } else {
        let front = l.drop_last();
        let x = l.last();
        assert(forall|i: int| 0 <= i < front.len() ==> front[i] == l[i]);
        assert(spec_no_duplicates(front)) by {
            assert forall|i: int, j: int| 0 <= i < j < front.len() implies (
            #[trigger] front[i]).full() != (#[trigger] front[j]).full() by {
                assert(l[i].full() != l[j].full());
            }
        }
        assert(spec_no_file_on_path(front)) by {
            assert forall|i: int, j: int|
                0 <= i < front.len() && 0 <= j < front.len() && !(
                #[trigger] front[i]).is_dir() implies !spec_is_prefix(
                front[i].full(),
                (#[trigger] front[j]).path,
            ) by {
                assert(!spec_is_prefix(l[i].full(), l[j].path));
            }
        }
        lemma_build_all_inv(front);
        assert(spec_fits(front, x)) by {
            let n = l.len() - 1;
            assert(l[n] == x);
            assert forall|i: int| 0 <= i < front.len() implies (#[trigger] front[i]).full()
                != x.full() by {
                assert(l[i].full() != l[n].full());
            }
            assert forall|i: int|
                0 <= i < front.len() && !(#[trigger] front[i]).is_dir() implies !spec_is_prefix(
                front[i].full(),
                x.path,
            ) by {
                assert(!spec_is_prefix(l[i].full(), l[n].path));
            }
            if !x.is_dir() {
                assert forall|i: int| 0 <= i < front.len() implies !spec_is_prefix(
                    x.full(),
                    (#[trigger] front[i]).path,
                ) by {
                    assert(!spec_is_prefix(l[n].full(), l[i].path));
                }
            }
        }
        assert(x.path.subrange(0, 0) =~= root);
        assert(x.path.skip(0) =~= x.path);
        lemma_add(spec_build_all(front), front, x, root);
        assert(front.push(x) =~= l);
    }
}

/// Where names are distinct everywhere, the only fault that the walk
/// through the first `n` entries can meet is an unresolved directory: one
/// that an entry lies below and that is itself not among the entries. It
/// meets none where every directory is among the entries.
#[verifier::rlimit(50)]
proof fn lemma_only_unresolved<I>(t: Seq<NodeModel<I>>, l: Seq<Entry<I>>, q: Seq<Seq<u8>>, n: int)
    requires
        spec_distinct(t),
        spec_nodes_ok(t, l, q),
        0 <= n <= t.len(),
    ensures
        spec_first_error(t.subrange(0, n), q) matches Some(e) ==> e.kind
            == TreeErrorKind::UnresolvedBranch && spec_references(l, e.path.push(e.name))
            && !spec_has_entry(l, e.path, e.name, true),
        spec_all_supplied(l) ==> spec_first_error(t.subrange(0, n), q) is None,
    decreases t, n,
{
    if n > 0 {
        lemma_only_unresolved(t, l, q, n - 1);
        lemma_nodes_ok(t, l, q);
        let upto = t.subrange(0, n);
        let before = t.subrange(0, n - 1);
        assert(upto.drop_last() =~= before);
        assert(upto.last() == t[n - 1]);
        let node = t[n - 1];
        assert(spec_node_ok(node, l, q));
        assert(!spec_has_segment(before, node.segment())) by {
            if spec_has_segment(before, node.segment()) {
                let j = choose|j: int|
                    0 <= j < before.len() && (#[trigger] before[j]).segment() == node.segment();
                assert(before[j] == t[j]);
                assert(t[j].segment() != t[n - 1].segment());
            }
        }
        match node {
            NodeModel::Leaf { .. } => {},
            NodeModel::Branch { node: entry, nodes, .. } => {
                assert(decreases_to!(t => t[n - 1]));
                lemma_only_unresolved(nodes, l, q.push(entry.name@), nodes.len() as int);
                assert(nodes.subrange(0, nodes.len() as int) =~= nodes);
            },
            NodeModel::UnresolvedBranch { sgmt, nodes } => {
                assert(decreases_to!(t => t[n - 1]));
                lemma_only_unresolved(nodes, l, q.push(sgmt), nodes.len() as int);
                assert(nodes.subrange(0, nodes.len() as int) =~= nodes);
                if spec_all_supplied(l) {
                    let q2 = q.push(sgmt);
                    let i = choose|i: int| 0 <= i < l.len() && spec_is_prefix(q2, (#[trigger] l[i]).path);
                    assert(spec_has_dir(l, l[i].path.subrange(0, q2.len() as int)));
                    let d = choose|d: int|
                        0 <= d < l.len() && (#[trigger] l[d]).is_dir() && l[d].full() == q2;
                    lemma_push_eq(l[d].path, l[d].node.name@, q, sgmt);
                    assert(l[d].is_at(q, sgmt, true));
                }
            },
        }
        assert(spec_first_error(upto, q) == match spec_first_error(before, q) {
            Some(e) => Some(e),
            None => spec_node_error(before, node, q),
        });
    } else {
        assert(t.subrange(0, 0) =~= Seq::<NodeModel<I>>::empty());
    }
}

/// Where an entry lies below a directory that is not among the entries,
/// the walk through the tree meets a fault.
#[verifier::rlimit(50)]
proof fn lemma_missing<I>(t: Seq<NodeModel<I>>, l: Seq<Entry<I>>, q: Seq<Seq<u8>>, i: int, m: int)
    requires
        spec_inv(t, l, q),
        0 <= i < l.len(),
        spec_is_prefix(q, l[i].path),
        q.len() < m <= l[i].path.len(),
        !spec_has_dir(l, l[i].path.subrange(0, m)),
    ensures
        spec_first_error(t, q) is Some,
    decreases m - q.len(),
{
    let path = l[i].path;
    let h = path[q.len() as int];
    let q2 = q.push(h);
    lemma_prefix_push(q, h, path);
    lemma_nodes_ok(t, l, q);
    assert(spec_covered(t, l[i], q));
    let j = choose|j: int| 0 <= j < t.len() && spec_is_tree_named(#[trigger] t[j], h);
    let before = t.subrange(0, j);
    let upto = t.subrange(0, j + 1);
    assert(upto.drop_last() =~= before);
    assert(upto.last() == t[j]);
    assert(spec_node_ok(t[j], l, q));
    assert(spec_node_error(before, t[j], q) is Some) by {
        if !spec_has_segment(before, t[j].segment()) {
            match t[j] {
                NodeModel::Leaf { .. } => {},
                NodeModel::Branch { node, nodes, .. } => {
                    if m == q.len() + 1 {
                        let d = choose|d: int| 0 <= d < l.len() && (#[trigger] l[d]).is_at(q, h, true);
                        assert(path.subrange(0, m) =~= q2);
                        assert(l[d].full() == q2);
                    } else {
                        lemma_missing(nodes, l, q2, i, m);
                    }
                },
                NodeModel::UnresolvedBranch { .. } => {},
            }
        }
    }
    assert(spec_first_error(upto, q) is Some);
    lemma_error_stays(t, j + 1, q);
}

/// The first law of the builder: where no two entries have the same path
/// and every directory that an entry lies below is among the entries, in
/// whatever order they come, the tree can be made final.
pub proof fn lemma_complete_input_builds<I>(entries: Seq<Entry<I>>)
    requires
        spec_no_duplicates(entries),
        spec_all_supplied(entries),
    ensures
        spec_first_error(spec_build_all(entries), Seq::empty()) is None,
{
    lemma_supplied_no_file(entries);
    lemma_build_all_inv(entries);
    let t = spec_build_all(entries);
    lemma_only_unresolved(t, entries, Seq::empty(), t.len() as int);
    assert(t.subrange(0, t.len() as int) =~= t);
}

/// The second law of the builder: take from such entries one directory that
/// another entry lies below, and the tree cannot be made final. The fault
/// is an unresolved directory: the one that was taken out, reported by its
/// name and the path of the directory that holds it.
pub proof fn lemma_missing_directory_is_unresolved<I>(entries: Seq<Entry<I>>, k: int, below: int)
    requires
        spec_no_duplicates(entries),
        spec_all_supplied(entries),
        0 <= k < entries.len(),
        entries[k].is_dir(),
        0 <= below < entries.len(),
        spec_is_prefix(entries[k].full(), entries[below].path),
    ensures
        spec_first_error(spec_build_all(entries.remove(k)), Seq::empty()) == Some(
            TreeErrorModel {
                kind: TreeErrorKind::UnresolvedBranch,
                path: entries[k].path,
                name: entries[k].node.name@,
            },
        ),
{
    let l = entries.remove(k);
    let root = Seq::<Seq<u8>>::empty();
    lemma_supplied_no_file(entries);
    assert forall|a: int| 0 <= a < l.len() implies #[trigger] l[a] == entries[if a < k {
        a
    } else {
        a + 1
    }] by {}
    assert(spec_no_duplicates(l)) by {
        assert forall|i: int, j: int| 0 <= i < j < l.len() implies (#[trigger] l[i]).full() != (
        #[trigger] l[j]).full() by {
            let i0 = if i < k {
                i
            } else {
                i + 1
            };
            let j0 = if j < k {
                j
            } else {
                j + 1
            };
            assert(entries[i0].full() != entries[j0].full());
        }
    }
    assert(spec_no_file_on_path(l)) by {
        assert forall|i: int, j: int|
            0 <= i < l.len() && 0 <= j < l.len() && !(#[trigger] l[i]).is_dir() implies !spec_is_prefix(
            l[i].full(),
            (#[trigger] l[j]).path,
        ) by {
            let i0 = if i < k {
                i
            } else {
                i + 1
            };
            let j0 = if j < k {
                j
            } else {
                j + 1
            };
            assert(!spec_is_prefix(entries[i0].full(), entries[j0].path));
        }
    }
    lemma_build_all_inv(l);
    let t = spec_build_all(l);
    assert(below != k) by {
        if below == k {
            assert(entries[k].full().len() == entries[k].path.len() + 1);
        }
    }
    let i = if below < k {
        below
    } else {
        below - 1
    };
    assert(l[i] == entries[below]);
    let m = entries[k].full().len() as int;
    assert(l[i].path.subrange(0, m) == entries[k].full());
    assert(!spec_has_dir(l, entries[k].full())) by {
        if spec_has_dir(l, entries[k].full()) {
            let d = choose|d: int|
                0 <= d < l.len() && (#[trigger] l[d]).is_dir() && l[d].full() == entries[k].full();
            let d0 = if d < k {
                d
            } else {
                d + 1
            };
            assert(l[d] == entries[d0]);
            if d0 < k {
                assert(entries[d0].full() != entries[k].full());
            } else {
                assert(entries[k].full() != entries[d0].full());
            }
        }
    }
    assert(l[i].path.subrange(0, 0) =~= root);
    lemma_missing(t, l, root, i, m);
    lemma_only_unresolved(t, l, root, t.len() as int);
    assert(t.subrange(0, t.len() as int) =~= t);
    let e = spec_first_error(t, root)->0;
    let p = e.path.push(e.name);
    let r = choose|r: int| 0 <= r < l.len() && spec_is_prefix(p, (#[trigger] l[r]).path);
    let r0 = if r < k {
        r
    } else {
        r + 1
    };
    assert(l[r] == entries[r0]);
    assert(spec_has_dir(entries, entries[r0].path.subrange(0, p.len() as int)));
    let d = choose|d: int|
        0 <= d < entries.len() && (#[trigger] entries[d]).is_dir() && entries[d].full() == p;
    lemma_push_eq(entries[d].path, entries[d].node.name@, e.path, e.name);
    if d != k {
        let d1 = if d < k {
            d
        } else {
            d - 1
        };
        assert(l[d1] == entries[d]);
        assert(l[d1].is_at(e.path, e.name, true));
    }
}

} // verus!
