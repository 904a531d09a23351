use abtool::transfer::{
    check_room, contains_text, copy_dir, copy_dir_content, copy_matching, create_dir_all, cut_file,
    get_total_size, matching_files, md5_from_file, remove_matching, NameFilter, TransferError,
};
use abtool::tree::{same_bytes, FileTree, Node};

fn xp(parts: &[&str]) -> Vec<String> {
    parts.iter().map(|p| p.to_string()).collect()
}

fn file(tree: &FileTree, path: &[&str]) -> Option<Vec<u8>> {
    match tree.get(&xp(path)) {
        Some(Node::File(bytes)) => Some(bytes.clone()),
        _ => None,
    }
}

fn hex(bytes: &[u8]) -> String {
    bytes.iter().map(|b| format!("{:02x}", b)).collect()
}

/// A tree with a source directory `s` and a destination directory `d`.
fn two_dirs() -> FileTree {
    let mut tree = FileTree::new();
    tree.insert(xp(&[]), Node::Dir);
    tree.insert(xp(&["s"]), Node::Dir);
    tree.insert(xp(&["s", "one.txt"]), Node::File(b"one".to_vec()));
    tree.insert(xp(&["s", "sub"]), Node::Dir);
    tree.insert(xp(&["s", "sub", "two.txt"]), Node::File(b"two".to_vec()));
    tree.insert(xp(&["s", "sub", "deep"]), Node::Dir);
    tree.insert(xp(&["s", "sub", "deep", "three.txt"]), Node::File(b"three".to_vec()));
    tree.insert(xp(&["d"]), Node::Dir);
    tree.insert(xp(&["d", "old.txt"]), Node::File(b"old".to_vec()));
    tree.insert(xp(&["d", "sub"]), Node::Dir);
    tree.insert(xp(&["d", "sub", "kept.txt"]), Node::File(b"kept".to_vec()));
    tree.insert(xp(&["d", "sub", "two.txt"]), Node::File(b"stale".to_vec()));
    tree
}

#[test]
fn md5_of_known_texts() {
    let mut tree = FileTree::new();
    tree.insert(xp(&["hello"]), Node::File(b"hello world".to_vec()));
    tree.insert(xp(&["empty"]), Node::File(Vec::new()));
    tree.insert(xp(&["fox"]), Node::File(b"The quick brown fox jumps over the lazy dog".to_vec()));
    assert_eq!(
        hex(&md5_from_file(&tree, &xp(&["hello"])).unwrap()),
        "5eb63bbbe01eeed093cb22bb8f5acdc3"
    );
    assert_eq!(
        hex(&md5_from_file(&tree, &xp(&["empty"])).unwrap()),
        "d41d8cd98f00b204e9800998ecf8427e"
    );
    assert_eq!(
        hex(&md5_from_file(&tree, &xp(&["fox"])).unwrap()),
        "9e107d9d372bb6826bd81d3542a419d6"
    );
}

#[test]
fn md5_of_what_is_no_file() {
    let mut tree = FileTree::new();
    tree.insert(xp(&["d"]), Node::Dir);
    assert!(matches!(
        md5_from_file(&tree, &xp(&["d"])),
        Err(TransferError::IsADirectory(p)) if p == xp(&["d"])
    ));
    assert!(matches!(
        md5_from_file(&tree, &xp(&["nothing"])),
        Err(TransferError::SourceMissing(p)) if p == xp(&["nothing"])
    ));
}

#[test]
fn same_bytes_compares_content() {
    assert!(same_bytes(&vec![], &vec![]));
    assert!(same_bytes(&vec![1, 2], &vec![1, 2]));
    assert!(!same_bytes(&vec![1, 2], &vec![1, 3]));
    assert!(!same_bytes(&vec![1, 2], &vec![1]));
}

#[test]
fn create_dir_all_makes_every_prefix() {
    let mut tree = FileTree::new();
    assert!(create_dir_all(&mut tree, &xp(&["a", "b", "c"])).is_ok());
    assert!(tree.is_dir(&xp(&[])));
    assert!(tree.is_dir(&xp(&["a"])));
    assert!(tree.is_dir(&xp(&["a", "b"])));
    assert!(tree.is_dir(&xp(&["a", "b", "c"])));
    assert_eq!(tree.len(), 4);
    // once more: nothing changes
    assert!(create_dir_all(&mut tree, &xp(&["a", "b", "c"])).is_ok());
    assert_eq!(tree.len(), 4);
}

#[test]
fn create_dir_all_stops_at_a_file() {
    let mut tree = FileTree::new();
    tree.insert(xp(&["a"]), Node::Dir);
    tree.insert(xp(&["a", "b"]), Node::File(vec![1]));
    let r = create_dir_all(&mut tree, &xp(&["a", "b", "c"]));
    assert!(matches!(r, Err(TransferError::NotADirectory(p)) if p == xp(&["a", "b"])));
    // the directories above the file were made, the one below was not
    assert!(tree.is_dir(&xp(&[])));
    assert!(tree.is_file(&xp(&["a", "b"])));
    assert!(!tree.contains(&xp(&["a", "b", "c"])));
}

#[test]
fn verified_move_with_a_faithful_copy() {
    let mut tree = FileTree::new();
    tree.insert(xp(&[]), Node::Dir);
    tree.insert(xp(&["from"]), Node::File(b"manifest".to_vec()));
    tree.insert(xp(&["other"]), Node::File(b"other".to_vec()));
    let r = cut_file(&mut tree, &xp(&["from"]), &xp(&["to"]), &b"manifest".to_vec());
    assert!(r.is_ok());
    assert!(!tree.contains(&xp(&["from"])));
    assert_eq!(file(&tree, &["to"]), Some(b"manifest".to_vec()));
    assert_eq!(file(&tree, &["other"]), Some(b"other".to_vec()));
}

#[test]
fn verified_move_with_a_corrupted_copy() {
    let mut tree = FileTree::new();
    tree.insert(xp(&[]), Node::Dir);
    tree.insert(xp(&["from"]), Node::File(b"manifest".to_vec()));
    let r = cut_file(&mut tree, &xp(&["from"]), &xp(&["to"]), &b"manifesT".to_vec());
    assert!(matches!(r, Err(TransferError::Md5Mismatch)));
    // the source is still there, and so is the copy as it landed
    assert_eq!(file(&tree, &["from"]), Some(b"manifest".to_vec()));
    assert_eq!(file(&tree, &["to"]), Some(b"manifesT".to_vec()));
}

#[test]
fn verified_move_with_a_truncated_copy() {
    let mut tree = FileTree::new();
    tree.insert(xp(&[]), Node::Dir);
    tree.insert(xp(&["from"]), Node::File(b"manifest".to_vec()));
    tree.insert(xp(&["to"]), Node::File(b"earlier".to_vec()));
    let r = cut_file(&mut tree, &xp(&["from"]), &xp(&["to"]), &Vec::new());
    assert!(matches!(r, Err(TransferError::Md5Mismatch)));
    assert_eq!(file(&tree, &["from"]), Some(b"manifest".to_vec()));
    assert_eq!(file(&tree, &["to"]), Some(Vec::new()));
}

#[test]
fn verified_move_of_what_is_not_there() {
    let mut tree = FileTree::new();
    tree.insert(xp(&["d"]), Node::Dir);
    let r = cut_file(&mut tree, &xp(&["from"]), &xp(&["to"]), &Vec::new());
    assert!(matches!(r, Err(TransferError::SourceMissing(p)) if p == xp(&["from"])));
    assert!(!tree.contains(&xp(&["to"])));
    let r = cut_file(&mut tree, &xp(&["d"]), &xp(&["to"]), &Vec::new());
    assert!(matches!(r, Err(TransferError::IsADirectory(p)) if p == xp(&["d"])));
    assert!(!tree.contains(&xp(&["to"])));
}

#[test]
fn verified_move_onto_a_directory() {
    let mut tree = FileTree::new();
    tree.insert(xp(&[]), Node::Dir);
    tree.insert(xp(&["from"]), Node::File(vec![1]));
    tree.insert(xp(&["to"]), Node::Dir);
    let r = cut_file(&mut tree, &xp(&["from"]), &xp(&["to"]), &vec![1]);
    assert!(matches!(r, Err(TransferError::IsADirectory(p)) if p == xp(&["to"])));
    assert_eq!(file(&tree, &["from"]), Some(vec![1]));
    assert!(tree.is_dir(&xp(&["to"])));
}

#[test]
fn verified_move_onto_itself_removes_the_file() {
    let mut tree = FileTree::new();
    tree.insert(xp(&[]), Node::Dir);
    tree.insert(xp(&["f"]), Node::File(vec![1]));
    let r = cut_file(&mut tree, &xp(&["f"]), &xp(&["f"]), &vec![7]);
    assert!(r.is_ok());
    assert!(!tree.contains(&xp(&["f"])));
}

#[test]
fn copy_of_a_single_file() {
    let mut tree = FileTree::new();
    tree.insert(xp(&[]), Node::Dir);
    tree.insert(xp(&["a"]), Node::File(b"data".to_vec()));
    assert!(copy_dir(&mut tree, &xp(&["a"]), &xp(&["b"])).is_ok());
    assert_eq!(file(&tree, &["a"]), Some(b"data".to_vec()));
    assert_eq!(file(&tree, &["b"]), Some(b"data".to_vec()));
    // over an existing file
    tree.insert(xp(&["c"]), Node::File(b"old".to_vec()));
    assert!(copy_dir(&mut tree, &xp(&["a"]), &xp(&["c"])).is_ok());
    assert_eq!(file(&tree, &["c"]), Some(b"data".to_vec()));
}

#[test]
fn copy_of_a_single_file_onto_a_directory() {
    let mut tree = FileTree::new();
    tree.insert(xp(&["a"]), Node::File(b"data".to_vec()));
    tree.insert(xp(&["d"]), Node::Dir);
    let r = copy_dir(&mut tree, &xp(&["a"]), &xp(&["d"]));
    assert!(matches!(r, Err(TransferError::IsADirectory(p)) if p == xp(&["d"])));
    assert!(tree.is_dir(&xp(&["d"])));
}

#[test]
fn copy_of_what_is_not_there() {
    let mut tree = two_dirs();
    let before = tree.len();
    let r = copy_dir(&mut tree, &xp(&["nothing"]), &xp(&["d"]));
    assert!(matches!(r, Err(TransferError::SourceMissing(p)) if p == xp(&["nothing"])));
    assert_eq!(tree.len(), before);
}

#[test]
fn copy_into_a_fresh_directory() {
    let mut tree = two_dirs();
    assert!(copy_dir(&mut tree, &xp(&["s"]), &xp(&["fresh"])).is_ok());
    assert!(tree.is_dir(&xp(&["fresh"])));
    assert_eq!(file(&tree, &["fresh", "one.txt"]), Some(b"one".to_vec()));
    assert!(tree.is_dir(&xp(&["fresh", "sub"])));
    assert_eq!(file(&tree, &["fresh", "sub", "two.txt"]), Some(b"two".to_vec()));
    assert!(tree.is_dir(&xp(&["fresh", "sub", "deep"])));
    assert_eq!(file(&tree, &["fresh", "sub", "deep", "three.txt"]), Some(b"three".to_vec()));
    // the source stays
    assert_eq!(file(&tree, &["s", "one.txt"]), Some(b"one".to_vec()));
}

#[test]
fn copy_merges_into_a_directory_and_deletes_nothing() {
    let mut tree = two_dirs();
    assert!(copy_dir(&mut tree, &xp(&["s"]), &xp(&["d"])).is_ok());
    // what was there and is unrelated stays
    assert_eq!(file(&tree, &["d", "old.txt"]), Some(b"old".to_vec()));
    assert_eq!(file(&tree, &["d", "sub", "kept.txt"]), Some(b"kept".to_vec()));
    // what the source has is there now
    assert_eq!(file(&tree, &["d", "one.txt"]), Some(b"one".to_vec()));
    assert_eq!(file(&tree, &["d", "sub", "deep", "three.txt"]), Some(b"three".to_vec()));
    // what both have is the source's
    assert_eq!(file(&tree, &["d", "sub", "two.txt"]), Some(b"two".to_vec()));
    // outside of the destination nothing changed
    assert_eq!(file(&tree, &["s", "sub", "two.txt"]), Some(b"two".to_vec()));
    assert!(tree.is_dir(&xp(&[])));
}

#[test]
fn copy_of_a_directory_onto_a_file() {
    let mut tree = two_dirs();
    tree.insert(xp(&["f"]), Node::File(vec![1]));
    let r = copy_dir(&mut tree, &xp(&["s"]), &xp(&["f"]));
    assert!(matches!(r, Err(TransferError::NotADirectory(p)) if p == xp(&["f"])));
    assert_eq!(file(&tree, &["f"]), Some(vec![1]));
    assert!(!tree.contains(&xp(&["f", "one.txt"])));
}

#[test]
fn copy_that_meets_a_file_where_it_needs_a_directory() {
    let mut tree = two_dirs();
    tree.insert(xp(&["d", "sub"]), Node::File(b"in the way".to_vec()));
    tree.remove(&xp(&["d", "sub", "kept.txt"]));
    tree.remove(&xp(&["d", "sub", "two.txt"]));
    let before = tree.len();
    let r = copy_dir(&mut tree, &xp(&["s"]), &xp(&["d"]));
    assert!(matches!(r, Err(TransferError::NotADirectory(p)) if p == xp(&["d", "sub"])));
    // on failure the tree is as it was
    assert_eq!(tree.len(), before);
    assert!(!tree.contains(&xp(&["d", "one.txt"])));
}

#[test]
fn copy_that_meets_a_directory_where_it_needs_a_file() {
    let mut tree = two_dirs();
    tree.insert(xp(&["d", "one.txt"]), Node::Dir);
    let r = copy_dir(&mut tree, &xp(&["s"]), &xp(&["d"]));
    assert!(matches!(r, Err(TransferError::IsADirectory(p)) if p == xp(&["d", "one.txt"])));
    assert_eq!(file(&tree, &["d", "sub", "two.txt"]), Some(b"stale".to_vec()));
}

#[test]
fn copy_of_an_empty_directory() {
    let mut tree = FileTree::new();
    tree.insert(xp(&[]), Node::Dir);
    tree.insert(xp(&["e"]), Node::Dir);
    assert!(copy_dir(&mut tree, &xp(&["e"]), &xp(&["f"])).is_ok());
    assert!(tree.is_dir(&xp(&["f"])));
    assert_eq!(tree.len(), 3);
}

#[test]
fn copy_of_a_directory_to_a_path_without_a_directory_above_it() {
    let mut tree = FileTree::new();
    tree.insert(xp(&["e"]), Node::Dir);
    tree.insert(xp(&["e", "f"]), Node::File(vec![1]));
    assert_eq!(
        copy_dir(&mut tree, &xp(&["e"]), &xp(&["x", "y"])),
        Err(TransferError::ParentMissing(xp(&["x"])))
    );
    assert_eq!(
        copy_dir(&mut tree, &xp(&["e"]), &xp(&["e", "f", "g"])),
        Err(TransferError::NotADirectory(xp(&["e", "f"])))
    );
    assert_eq!(tree.len(), 2);
    // into a directory that is there, whatever is above it
    tree.insert(xp(&["x", "y"]), Node::Dir);
    assert_eq!(copy_dir(&mut tree, &xp(&["e"]), &xp(&["x", "y"])), Ok(()));
    assert_eq!(file(&tree, &["x", "y", "f"]), Some(vec![1]));
}

#[test]
fn text_is_found_anywhere_in_a_name() {
    assert!(contains_text("classes.dex", ".dex"));
    assert!(contains_text(".dex", ".dex"));
    assert!(contains_text("a.dex.bak", ".dex"));
    assert!(contains_text("x", ""));
    assert!(contains_text("", ""));
    assert!(!contains_text("", ".dex"));
    assert!(!contains_text("classes.de", ".dex"));
    assert!(!contains_text("classes.DEX", ".dex"));
    assert!(!contains_text("dex", ".dex"));
    assert!(contains_text("ü.dex", ".dex"));
    assert!(contains_text("aab", "ab"));
}

#[test]
fn signature_and_bytecode_names() {
    assert!(NameFilter::Signature.matches("CERT.RSA"));
    assert!(NameFilter::Signature.matches("MANIFEST.MF"));
    assert!(NameFilter::Signature.matches("CERT.SF"));
    assert!(NameFilter::Signature.matches("X.SF.old"));
    assert!(!NameFilter::Signature.matches("cert.rsa"));
    assert!(!NameFilter::Signature.matches("services"));
    assert!(!NameFilter::Signature.matches("CERT.DSA"));
    assert!(NameFilter::Bytecode.matches("classes2.dex"));
    assert!(!NameFilter::Bytecode.matches("classes.jar"));
}

#[test]
fn matching_files_are_files_directly_in_the_directory() {
    let mut tree = FileTree::new();
    tree.insert(xp(&["m"]), Node::Dir);
    tree.insert(xp(&["m", "CERT.RSA"]), Node::File(vec![1]));
    tree.insert(xp(&["m", "notes.txt"]), Node::File(vec![2]));
    tree.insert(xp(&["m", "DIR.SF"]), Node::Dir);
    tree.insert(xp(&["m", "inner"]), Node::Dir);
    tree.insert(xp(&["m", "inner", "DEEP.MF"]), Node::File(vec![3]));
    tree.insert(xp(&["other", "CERT.SF"]), Node::File(vec![4]));
    let found = matching_files(&tree, &xp(&["m"]), NameFilter::Signature);
    assert_eq!(found, vec![xp(&["m", "CERT.RSA"])]);
}

#[test]
fn remove_matching_strips_signature_files_only() {
    let mut tree = FileTree::new();
    tree.insert(xp(&["m"]), Node::Dir);
    tree.insert(xp(&["m", "CERT.RSA"]), Node::File(vec![1]));
    tree.insert(xp(&["m", "MANIFEST.MF"]), Node::File(vec![2]));
    tree.insert(xp(&["m", "CERT.SF"]), Node::File(vec![3]));
    tree.insert(xp(&["m", "services"]), Node::File(vec![4]));
    tree.insert(xp(&["m", "DIR.SF"]), Node::Dir);
    tree.insert(xp(&["m", "inner", "DEEP.MF"]), Node::File(vec![5]));
    remove_matching(&mut tree, &xp(&["m"]), NameFilter::Signature);
    assert!(!tree.contains(&xp(&["m", "CERT.RSA"])));
    assert!(!tree.contains(&xp(&["m", "MANIFEST.MF"])));
    assert!(!tree.contains(&xp(&["m", "CERT.SF"])));
    assert_eq!(file(&tree, &["m", "services"]), Some(vec![4]));
    assert!(tree.is_dir(&xp(&["m", "DIR.SF"])));
    assert_eq!(file(&tree, &["m", "inner", "DEEP.MF"]), Some(vec![5]));
    assert!(tree.is_dir(&xp(&["m"])));
}

#[test]
fn copy_matching_gathers_bytecode() {
    let mut tree = FileTree::new();
    tree.insert(xp(&[]), Node::Dir);
    tree.insert(xp(&["classes.dex"]), Node::File(vec![1]));
    tree.insert(xp(&["classes2.dex"]), Node::File(vec![2]));
    tree.insert(xp(&["apktool.yml"]), Node::File(vec![3]));
    tree.insert(xp(&["smali.dex"]), Node::Dir);
    tree.insert(xp(&["lib", "inner.dex"]), Node::File(vec![4]));
    tree.insert(xp(&["base", "dex"]), Node::Dir);
    let r = copy_matching(&mut tree, &xp(&[]), &xp(&["base", "dex"]), NameFilter::Bytecode);
    assert!(r.is_ok());
    assert_eq!(file(&tree, &["base", "dex", "classes.dex"]), Some(vec![1]));
    assert_eq!(file(&tree, &["base", "dex", "classes2.dex"]), Some(vec![2]));
    assert!(!tree.contains(&xp(&["base", "dex", "apktool.yml"])));
    assert!(!tree.contains(&xp(&["base", "dex", "smali.dex"])));
    assert!(!tree.contains(&xp(&["base", "dex", "inner.dex"])));
    // the originals stay
    assert_eq!(file(&tree, &["classes.dex"]), Some(vec![1]));
}

#[test]
fn copy_matching_fails_on_a_directory_of_the_same_name() {
    let mut tree = FileTree::new();
    tree.insert(xp(&["classes.dex"]), Node::File(vec![1]));
    tree.insert(xp(&["base", "dex", "classes.dex"]), Node::Dir);
    let before = tree.len();
    let r = copy_matching(&mut tree, &xp(&[]), &xp(&["base", "dex"]), NameFilter::Bytecode);
    assert!(matches!(
        r,
        Err(TransferError::IsADirectory(p)) if p == xp(&["base", "dex", "classes.dex"])
    ));
    assert_eq!(tree.len(), before);
}

#[test]
fn content_is_copied_without_the_directory_itself() {
    let mut tree = FileTree::new();
    tree.insert(xp(&["s"]), Node::Dir);
    tree.insert(xp(&["s", "f"]), Node::File(b"f".to_vec()));
    tree.insert(xp(&["s", "sub"]), Node::Dir);
    tree.insert(xp(&["s", "sub", "g"]), Node::File(b"g".to_vec()));
    assert!(copy_dir_content(&mut tree, &xp(&["s"]), &xp(&["d"])).is_ok());
    assert!(!tree.contains(&xp(&["d"])));
    assert_eq!(file(&tree, &["d", "f"]), Some(b"f".to_vec()));
    assert!(tree.is_dir(&xp(&["d", "sub"])));
    assert_eq!(file(&tree, &["d", "sub", "g"]), Some(b"g".to_vec()));
}

#[test]
fn content_copy_fails_on_a_clash_and_changes_nothing() {
    let mut tree = two_dirs();
    tree.insert(xp(&["d", "sub", "deep"]), Node::File(b"x".to_vec()));
    let before = tree.len();
    let r = copy_dir_content(&mut tree, &xp(&["s"]), &xp(&["d"]));
    assert!(matches!(
        r,
        Err(TransferError::NotADirectory(p)) if p == xp(&["d", "sub", "deep"])
    ));
    assert_eq!(tree.len(), before);
    assert_eq!(file(&tree, &["d", "sub", "two.txt"]), Some(b"stale".to_vec()));
}

#[test]
fn total_size_of_a_file_and_of_a_directory() {
    let tree = two_dirs();
    assert_eq!(get_total_size(&tree, &xp(&["s", "one.txt"])), Ok(3));
    assert_eq!(get_total_size(&tree, &xp(&["s", "sub", "deep"])), Ok(5));
    assert_eq!(get_total_size(&tree, &xp(&["s", "sub"])), Ok(3 + 5));
    assert_eq!(get_total_size(&tree, &xp(&["s"])), Ok(3 + 3 + 5));
    assert_eq!(get_total_size(&tree, &xp(&["d"])), Ok(3 + 4 + 5));
    assert_eq!(get_total_size(&tree, &xp(&[])), Ok(11 + 12));
}

#[test]
fn total_size_of_what_is_not_there() {
    let tree = two_dirs();
    assert!(matches!(
        get_total_size(&tree, &xp(&["nothing"])),
        Err(TransferError::SourceMissing(p)) if p == xp(&["nothing"])
    ));
    let mut empty = FileTree::new();
    empty.insert(xp(&["e"]), Node::Dir);
    assert_eq!(get_total_size(&empty, &xp(&["e"])), Ok(0));
}

#[test]
fn verified_move_to_a_path_without_a_directory_above_it() {
    let mut tree = FileTree::new();
    tree.insert(xp(&["a"]), Node::File(b"a".to_vec()));
    let r = cut_file(&mut tree, &xp(&["a"]), &xp(&["x", "y"]), &b"a".to_vec());
    assert_eq!(r, Err(TransferError::ParentMissing(xp(&["x"]))));
    // nothing was copied and nothing was removed
    assert_eq!(file(&tree, &["a"]), Some(b"a".to_vec()));
    assert!(!tree.contains(&xp(&["x", "y"])));
    assert_eq!(tree.len(), 1);
}

#[test]
fn verified_move_to_a_path_below_a_file() {
    let mut tree = FileTree::new();
    tree.insert(xp(&["a"]), Node::File(b"a".to_vec()));
    tree.insert(xp(&["x"]), Node::File(b"x".to_vec()));
    let r = cut_file(&mut tree, &xp(&["a"]), &xp(&["x", "y"]), &b"a".to_vec());
    assert_eq!(r, Err(TransferError::NotADirectory(xp(&["x"]))));
    assert_eq!(file(&tree, &["a"]), Some(b"a".to_vec()));
    assert_eq!(tree.len(), 2);
}

#[test]
fn verified_move_into_a_directory_that_is_there() {
    let mut tree = FileTree::new();
    tree.insert(xp(&["a"]), Node::File(b"a".to_vec()));
    tree.insert(xp(&["x"]), Node::Dir);
    assert_eq!(cut_file(&mut tree, &xp(&["a"]), &xp(&["x", "y"]), &b"a".to_vec()), Ok(()));
    assert_eq!(file(&tree, &["x", "y"]), Some(b"a".to_vec()));
    assert!(!tree.contains(&xp(&["a"])));
}

#[test]
fn copy_of_a_file_to_a_path_without_a_directory_above_it() {
    let mut tree = FileTree::new();
    tree.insert(xp(&["a"]), Node::File(b"a".to_vec()));
    assert_eq!(
        copy_dir(&mut tree, &xp(&["a"]), &xp(&["x", "y"])),
        Err(TransferError::ParentMissing(xp(&["x"])))
    );
    assert_eq!(
        copy_dir(&mut tree, &xp(&["a"]), &xp(&["a", "y"])),
        Err(TransferError::NotADirectory(xp(&["a"])))
    );
    assert_eq!(tree.len(), 1);
}

#[test]
fn room_for_a_file() {
    let mut tree = FileTree::new();
    tree.insert(xp(&["d"]), Node::Dir);
    tree.insert(xp(&["f"]), Node::File(vec![]));
    assert_eq!(check_room(&tree, &xp(&[])), Ok(()));
    assert_eq!(check_room(&tree, &xp(&["d", "new"])), Ok(()));
    assert_eq!(check_room(&tree, &xp(&["top"])), Err(TransferError::ParentMissing(xp(&[]))));
    assert_eq!(check_room(&tree, &xp(&["f", "new"])), Err(TransferError::NotADirectory(xp(&["f"]))));
    assert_eq!(check_room(&tree, &xp(&["no", "new"])), Err(TransferError::ParentMissing(xp(&["no"]))));
}
