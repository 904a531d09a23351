use abtool::tree::{
    changes, child, copy_bytes, copy_path, has_prefix, same_path, Change, FileTree, Node,
};

fn tp(parts: &[&str]) -> Vec<String> {
    parts.iter().map(|p| p.to_string()).collect()
}

fn bytes_at(tree: &FileTree, path: &[&str]) -> Option<Vec<u8>> {
    match tree.get(&tp(path)) {
        Some(Node::File(bytes)) => Some(bytes.clone()),
        _ => None,
    }
}

#[test]
fn new_tree_holds_nothing() {
    let tree = FileTree::new();
    assert_eq!(tree.len(), 0);
    assert!(!tree.contains(&tp(&[])));
    assert!(!tree.contains(&tp(&["a"])));
    assert!(tree.get(&tp(&["a"])).is_none());
}

#[test]
fn insert_then_get() {
    let mut tree = FileTree::new();
    tree.insert(tp(&[]), Node::Dir);
    tree.insert(tp(&["a"]), Node::File(vec![1, 2, 3]));
    tree.insert(tp(&["d"]), Node::Dir);
    assert!(tree.contains(&tp(&[])));
    assert!(tree.is_dir(&tp(&[])));
    assert!(tree.is_file(&tp(&["a"])));
    assert!(!tree.is_dir(&tp(&["a"])));
    assert!(tree.is_dir(&tp(&["d"])));
    assert!(!tree.is_file(&tp(&["d"])));
    assert_eq!(bytes_at(&tree, &["a"]), Some(vec![1, 2, 3]));
    assert!(!tree.is_file(&tp(&["missing"])));
    assert!(!tree.is_dir(&tp(&["missing"])));
}

#[test]
fn insert_replaces_what_was_there() {
    let mut tree = FileTree::new();
    tree.insert(tp(&["a"]), Node::File(vec![1]));
    tree.insert(tp(&["b"]), Node::File(vec![2]));
    tree.insert(tp(&["a"]), Node::File(vec![9, 9]));
    assert_eq!(bytes_at(&tree, &["a"]), Some(vec![9, 9]));
    assert_eq!(bytes_at(&tree, &["b"]), Some(vec![2]));
    assert_eq!(tree.len(), 2);
    tree.insert(tp(&["a"]), Node::Dir);
    assert!(tree.is_dir(&tp(&["a"])));
}

#[test]
fn remove_takes_one_path_out() {
    let mut tree = FileTree::new();
    tree.insert(tp(&["a"]), Node::File(vec![1]));
    tree.insert(tp(&["a", "b"]), Node::File(vec![2]));
    tree.remove(&tp(&["a"]));
    assert!(!tree.contains(&tp(&["a"])));
    assert_eq!(bytes_at(&tree, &["a", "b"]), Some(vec![2]));
    tree.remove(&tp(&["nothing", "here"]));
    assert_eq!(tree.len(), 1);
}

#[test]
fn paths_differ_by_length_and_by_name() {
    assert!(same_path(&tp(&[]), &tp(&[])));
    assert!(same_path(&tp(&["a", "b"]), &tp(&["a", "b"])));
    assert!(!same_path(&tp(&["a", "b"]), &tp(&["a"])));
    assert!(!same_path(&tp(&["a", "b"]), &tp(&["a", "c"])));
    assert!(!same_path(&tp(&["ab"]), &tp(&["a", "b"])));
}

#[test]
fn prefix_is_by_whole_names() {
    assert!(has_prefix(&tp(&["a", "b"]), &tp(&[])));
    assert!(has_prefix(&tp(&["a", "b"]), &tp(&["a"])));
    assert!(has_prefix(&tp(&["a", "b"]), &tp(&["a", "b"])));
    assert!(!has_prefix(&tp(&["a"]), &tp(&["a", "b"])));
    assert!(!has_prefix(&tp(&["ab", "c"]), &tp(&["a"])));
    assert!(!has_prefix(&tp(&["x", "b"]), &tp(&["a"])));
}

#[test]
fn child_and_copies() {
    assert_eq!(child(&tp(&["a"]), "b"), tp(&["a", "b"]));
    assert_eq!(child(&tp(&[]), "b"), tp(&["b"]));
    assert_eq!(copy_path(&tp(&["a", "b"])), tp(&["a", "b"]));
    assert_eq!(copy_bytes(&vec![1, 2, 3]), vec![1, 2, 3]);
    assert_eq!(copy_bytes(&Vec::new()), Vec::<u8>::new());
}

#[test]
fn absorb_lets_the_other_tree_win() {
    let mut tree = FileTree::new();
    tree.insert(tp(&["a"]), Node::File(vec![1]));
    tree.insert(tp(&["b"]), Node::File(vec![2]));
    let mut other = FileTree::new();
    other.insert(tp(&["b"]), Node::File(vec![20]));
    other.insert(tp(&["c"]), Node::Dir);
    tree.absorb(other);
    assert_eq!(bytes_at(&tree, &["a"]), Some(vec![1]));
    assert_eq!(bytes_at(&tree, &["b"]), Some(vec![20]));
    assert!(tree.is_dir(&tp(&["c"])));
}

#[test]
fn duplicate_is_independent_of_the_original() {
    let mut tree = FileTree::new();
    tree.insert(tp(&["a"]), Node::File(vec![1]));
    let mut copy = tree.duplicate();
    copy.insert(tp(&["a"]), Node::File(vec![2]));
    copy.insert(tp(&["b"]), Node::Dir);
    assert_eq!(bytes_at(&tree, &["a"]), Some(vec![1]));
    assert!(!tree.contains(&tp(&["b"])));
    assert_eq!(bytes_at(&copy, &["a"]), Some(vec![2]));
}

#[test]
fn bindings_can_be_walked() {
    let mut tree = FileTree::new();
    tree.insert(tp(&["a"]), Node::File(vec![1]));
    tree.insert(tp(&["d"]), Node::Dir);
    let mut seen = Vec::new();
    for i in 0..tree.len() {
        seen.push((tree.path_at(i).unwrap().clone(), tree.node_at(i).unwrap().is_dir()));
    }
    assert_eq!(seen, vec![(tp(&["a"]), false), (tp(&["d"]), true)]);
}

fn apply(tree: &mut FileTree, steps: Vec<Change>) {
    for step in steps {
        match step {
            Change::Put(path, node) => tree.insert(path, node),
            Change::Remove(path) => tree.remove(&path),
        }
    }
}

fn same_trees(a: &FileTree, b: &FileTree) -> bool {
    let covers = |x: &FileTree, y: &FileTree| {
        (0..x.len()).all(|i| match (x.get(x.path_at(i).unwrap()), y.get(x.path_at(i).unwrap())) {
            (Some(n), Some(m)) => n.same_as(m),
            _ => false,
        })
    };
    covers(a, b) && covers(b, a)
}

#[test]
fn nodes_compare_by_kind_and_bytes() {
    assert!(Node::Dir.same_as(&Node::Dir));
    assert!(Node::File(vec![1, 2]).same_as(&Node::File(vec![1, 2])));
    assert!(!Node::File(vec![1, 2]).same_as(&Node::File(vec![1, 3])));
    assert!(!Node::File(vec![]).same_as(&Node::Dir));
    assert!(!Node::Dir.same_as(&Node::File(vec![])));
}

#[test]
fn changes_between_equal_trees_are_none() {
    let mut tree = FileTree::new();
    tree.insert(tp(&["a"]), Node::File(vec![1]));
    tree.insert(tp(&["d"]), Node::Dir);
    assert!(changes(&tree, &tree.duplicate()).is_empty());
    assert!(changes(&FileTree::new(), &FileTree::new()).is_empty());
}

#[test]
fn changes_put_what_is_new_and_remove_what_is_gone() {
    let mut before = FileTree::new();
    before.insert(tp(&["same"]), Node::File(vec![1]));
    before.insert(tp(&["edited"]), Node::File(vec![2]));
    before.insert(tp(&["gone"]), Node::File(vec![3]));
    before.insert(tp(&["kind"]), Node::File(vec![4]));
    let mut after = FileTree::new();
    after.insert(tp(&["same"]), Node::File(vec![1]));
    after.insert(tp(&["edited"]), Node::File(vec![20]));
    after.insert(tp(&["kind"]), Node::Dir);
    after.insert(tp(&["new", "file"]), Node::File(vec![5]));
    let steps = changes(&before, &after);
    let mut puts = Vec::new();
    let mut removes = Vec::new();
    for step in &steps {
        match step {
            Change::Put(path, _) => puts.push(path.clone()),
            Change::Remove(path) => removes.push(path.clone()),
        }
    }
    assert_eq!(puts, vec![tp(&["edited"]), tp(&["kind"]), tp(&["new", "file"])]);
    assert_eq!(removes, vec![tp(&["gone"])]);
    let mut replay = before.duplicate();
    apply(&mut replay, steps);
    assert!(same_trees(&replay, &after));
}

#[test]
fn changes_lead_from_nothing_to_a_tree_and_back() {
    let mut tree = FileTree::new();
    tree.insert(tp(&[]), Node::Dir);
    tree.insert(tp(&["a"]), Node::File(vec![1]));
    let mut built = FileTree::new();
    apply(&mut built, changes(&FileTree::new(), &tree));
    assert!(same_trees(&built, &tree));
    apply(&mut built, changes(&tree, &FileTree::new()));
    assert_eq!(built.len(), 0);
}
