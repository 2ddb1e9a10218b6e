use dechst::obj::tree::node::{Node as ObjNode, NodeKind, TargetHint};
use dechst::obj::tree::Tree;
use dechst::os::Metadata;
use dechst::path::{bytes_eq, split_head, stays_below, PathBuf};
use dechst::process::tree::im::{Node as ImNode, Tree as ImTree, TreeErrorKind};
use dechst::process::tree::{Node, TreeBuilder};

fn node(name: &str, kind: NodeKind) -> ObjNode {
    ObjNode { name: name.as_bytes().to_vec(), kind, meta: Metadata::unknown() }
}

fn dir(name: &str) -> ObjNode {
    node(name, NodeKind::dir())
}

fn file(name: &str) -> ObjNode {
    node(name, NodeKind::file())
}

fn path(segments: &[&str]) -> PathBuf {
    let mut path = PathBuf::new();
    for segment in segments {
        path.push(segment.as_bytes().to_vec());
    }
    path
}

/// The names of a final tree, depth first, directories with a slash.
fn names(tree: &ImTree<u32>, prefix: &str, out: &mut Vec<String>) {
    for i in 0..tree.len() {
        let n = tree.get(i);
        let name = format!("{}{}", prefix, String::from_utf8_lossy(n.segment()));
        match n.subtree() {
            Some(sub) => {
                out.push(format!("{}/", name));
                names(sub, &format!("{}/", name), out);
            }
            None => out.push(name),
        }
    }
}

fn build(entries: &[(&[&str], ObjNode)]) -> Result<Vec<String>, (TreeErrorKind, Vec<String>, String)> {
    let mut builder: TreeBuilder<u32> = TreeBuilder::new();
    for (i, (parent, node)) in entries.iter().enumerate() {
        builder.add(path(parent).segments(), node.clone(), i as u32);
    }
    match builder.build() {
        Ok(tree) => {
            let mut out = Vec::new();
            names(&tree, "", &mut out);
            Ok(out)
        }
        Err(e) => Err((
            e.kind(),
            e.path().0.iter().map(|s| String::from_utf8_lossy(s).into_owned()).collect(),
            String::from_utf8_lossy(e.name()).into_owned(),
        )),
    }
}

#[test]
fn tree_builder_duplicate() {
    let result = build(&[(&["a"], dir("b")), (&["a"], file("b"))]);
    assert_eq!(
        result,
        Err((TreeErrorKind::DuplicateNode, vec!["a".to_string()], "b".to_string()))
    );
}

#[test]
fn tree_builder_complete_input_builds() {
    let entries: Vec<(&[&str], ObjNode)> = vec![
        (&[], dir("a")),
        (&["a"], file("x")),
        (&["a"], dir("b")),
        (&["a", "b"], file("y")),
        (&[], file("z")),
        (&["a", "b"], node("l", NodeKind::symlink(b"target".to_vec()))),
    ];
    assert_eq!(
        build(&entries),
        Ok(vec!["a/", "a/x", "a/b/", "a/b/y", "a/b/l", "z"]
            .into_iter()
            .map(String::from)
            .collect())
    );
    // the same entries with the directories last: siblings keep the order in
    // which they, or what lies below them, first arrived
    let late: Vec<(&[&str], ObjNode)> = vec![
        (&["a", "b"], file("y")),
        (&[], file("z")),
        (&["a"], file("x")),
        (&["a"], dir("b")),
        (&[], dir("a")),
    ];
    assert_eq!(
        build(&late),
        Ok(vec!["a/", "a/b/", "a/b/y", "a/x", "z"].into_iter().map(String::from).collect())
    );
    assert_eq!(build(&[]), Ok(Vec::new()));
}

#[test]
fn tree_builder_missing_directory_is_unresolved() {
    let entries: Vec<(&[&str], ObjNode)> = vec![
        (&[], dir("a")),
        (&["a"], file("x")),
        (&["a"], dir("b")),
        (&["a", "b"], file("y")),
        (&[], file("z")),
    ];
    assert!(build(&entries).is_ok());
    // without the entry of `a`
    assert_eq!(
        build(&entries[1..]),
        Err((TreeErrorKind::UnresolvedBranch, Vec::new(), "a".to_string()))
    );
    // without the entry of `a/b`
    let mut without_b = entries.clone();
    without_b.remove(2);
    assert_eq!(
        build(&without_b),
        Err((TreeErrorKind::UnresolvedBranch, vec!["a".to_string()], "b".to_string()))
    );
    // a directory that nothing lies below can be left out
    let empty: Vec<(&[&str], ObjNode)> = vec![(&[], dir("a")), (&[], dir("empty"))];
    assert!(build(&empty).is_ok());
    assert!(build(&empty[..1]).is_ok());
}

#[test]
fn tree_builder_first_fault_wins() {
    // a duplicate below an unresolved directory is met first
    assert_eq!(
        build(&[(&["u"], file("f")), (&["u"], file("f")), (&[], file("g")), (&[], file("g"))]),
        Err((TreeErrorKind::DuplicateNode, vec!["u".to_string()], "f".to_string()))
    );
    // an unresolved directory is met before what comes after it
    assert_eq!(
        build(&[(&["u"], file("f")), (&[], file("g")), (&[], file("g"))]),
        Err((TreeErrorKind::UnresolvedBranch, Vec::new(), "u".to_string()))
    );
    // of two unresolved directories, one in the other, the inner is met first
    assert_eq!(
        build(&[(&["u", "v"], file("f"))]),
        Err((TreeErrorKind::UnresolvedBranch, vec!["u".to_string()], "v".to_string()))
    );
    // a duplicate before an unresolved directory
    assert_eq!(
        build(&[(&[], file("g")), (&[], file("g")), (&["u"], file("f"))]),
        Err((TreeErrorKind::DuplicateNode, Vec::new(), "g".to_string()))
    );
    // a file and a directory of one name
    assert_eq!(
        build(&[(&[], file("n")), (&[], dir("n"))]),
        Err((TreeErrorKind::DuplicateNode, Vec::new(), "n".to_string()))
    );
    // two directories of one name
    assert_eq!(
        build(&[(&[], dir("n")), (&[], dir("n"))]),
        Err((TreeErrorKind::DuplicateNode, Vec::new(), "n".to_string()))
    );
    // an entry below a file
    assert_eq!(
        build(&[(&[], file("n")), (&["n"], file("below"))]),
        Err((TreeErrorKind::DuplicateNode, Vec::new(), "n".to_string()))
    );
}

#[test]
fn tree_builder_nodes() {
    let mut builder: TreeBuilder<&str> = TreeBuilder::default();
    assert_eq!(builder.len(), 0);
    builder.add(path(&["d"]).segments(), file("f"), "file");
    assert_eq!(builder.len(), 1);
    let unresolved = builder.get(0);
    assert!(unresolved.is_unresolved_branch());
    assert!(unresolved.is_tree());
    assert!(!unresolved.is_branch());
    assert!(!unresolved.is_leaf());
    assert_eq!(unresolved.segment(), &b"d".to_vec());
    let below = unresolved.subtree().unwrap();
    assert_eq!(below.len(), 1);
    assert!(below.get(0).is_leaf());
    assert!(below.get(0).subtree().is_none());

    builder.add(path(&[]).segments(), dir("d"), "dir");
    assert_eq!(builder.len(), 1);
    let resolved = builder.get(0);
    assert!(resolved.is_branch());
    assert_eq!(resolved.subtree().unwrap().len(), 1);
    match resolved {
        Node::Branch { item, node, .. } => {
            assert_eq!(*item, "dir");
            assert!(node.kind.is_dir());
        }
        _ => panic!("not a branch"),
    }

    let tree = builder.build().unwrap();
    assert_eq!(tree.len(), 1);
    let d = tree.get(0);
    assert!(d.is_branch());
    assert!(!d.is_leaf());
    let f = d.subtree().unwrap().get(0);
    assert!(f.is_leaf());
    assert_eq!(f.segment(), &b"f".to_vec());
    match f {
        ImNode::Leaf { item, .. } => assert_eq!(*item, "file"),
        _ => panic!("not a leaf"),
    }

    let leaf: Node<u8> = Node::leaf(file("l"), 1);
    assert!(leaf.is_leaf());
    let branch: Node<u8> = Node::branch(dir("b"), 2);
    assert!(branch.is_branch());
    let open: Node<u8> = Node::unresolved_branch(b"o".to_vec());
    assert_eq!(open.segment(), &b"o".to_vec());
}

#[test]
fn path_segments() {
    let mut p = PathBuf::with_capacity(2);
    assert_eq!(p.len(), 0);
    assert_eq!(p.pop(), None);
    p.push(b"a".to_vec());
    p.push(b"b".to_vec());
    assert_eq!(p.len(), 2);
    assert_eq!(p.duplicate(), p);
    let (head, tail) = split_head(p.segments()).unwrap();
    assert_eq!(head, &b"a".to_vec());
    assert_eq!(tail, &[b"b".to_vec()]);
    assert!(split_head(&[]).is_none());
    assert_eq!(p.pop(), Some(b"b".to_vec()));
    assert_eq!(p, path(&["a"]));
    assert!(bytes_eq(b"abc", b"abc"));
    assert!(!bytes_eq(b"abc", b"abd"));
    assert!(!bytes_eq(b"abc", b"ab"));
    assert!(bytes_eq(b"", b""));
    assert!(stays_below(path(&["a", "b", "..."]).segments()));
    assert!(stays_below(path(&[]).segments()));
    assert!(stays_below(path(&[".", "a"]).segments()));
    assert!(!stays_below(path(&["a", "..", "b"]).segments()));
    assert!(!stays_below(path(&[".."]).segments()));
}

#[test]
fn stored_tree_has_unique_names() {
    assert!(Tree::new(vec![file("a"), dir("b")]).is_some());
    assert!(Tree::new(Vec::new()).is_some());
    assert!(Tree::new(vec![file("a"), dir("b"), file("a")]).is_none());
    let tree = Tree::new(vec![file("a"), dir("b")]).unwrap();
    assert_eq!(tree.nodes().len(), 2);
    assert_eq!(tree.nodes()[1].name, b"b".to_vec());
    assert!(!tree.is_complete());
    assert_eq!(tree.into_nodes().len(), 2);
    let complete = Tree::new(vec![
        file("a"),
        node("b", NodeKind::Directory { subtree: Some(dechst::id::Id([1; 32])) }),
    ])
    .unwrap();
    assert!(complete.is_complete());
    assert!(Tree::new(Vec::new()).unwrap().is_complete());
}

#[test]
fn node_kinds() {
    assert_eq!(NodeKind::file(), NodeKind::File { blobs: Vec::new() });
    assert_eq!(NodeKind::dir(), NodeKind::Directory { subtree: None });
    assert_eq!(
        NodeKind::symlink(b"t".to_vec()),
        NodeKind::Symlink { target: b"t".to_vec(), hint: None }
    );
    assert_eq!(NodeKind::dev(5), NodeKind::Device { device: 5 });
    assert_eq!(NodeKind::cdev(6), NodeKind::CharacterDevice { device: 6 });
    assert_eq!(NodeKind::fifo(), NodeKind::Fifo);
    assert_eq!(NodeKind::socket(), NodeKind::Socket);
    assert!(NodeKind::dir().is_dir());
    assert!(!NodeKind::file().is_dir());
    assert!(!NodeKind::dir().is_final());
    assert!(NodeKind::Directory { subtree: Some(dechst::id::Id::zero()) }.is_final());
    assert!(NodeKind::file().is_final());
    assert_ne!(TargetHint::Directory, TargetHint::File);
}
