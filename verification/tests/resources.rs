use abtool::archive::{unzip, zip_dir, Compression, PathPart, WalkEntry};
use abtool::resources::{copy_part, copy_resources};
use abtool::transfer::TransferError;
use abtool::tree::{FileTree, Node};

fn rp(parts: &[&str]) -> Vec<String> {
    parts.iter().map(|p| p.to_string()).collect()
}

fn content(tree: &FileTree, path: &[&str]) -> Option<Vec<u8>> {
    match tree.get(&rp(path)) {
        Some(Node::File(bytes)) => Some(bytes.clone()),
        _ => None,
    }
}

fn put(tree: &mut FileTree, path: &[&str], bytes: &[u8]) {
    tree.insert(rp(path), Node::File(bytes.to_vec()));
}

fn dir(tree: &mut FileTree, path: &[&str]) {
    tree.insert(rp(path), Node::Dir);
}

/// The output directory after decoding, linking and unpacking.
fn decoded() -> FileTree {
    let mut t = FileTree::new();
    dir(&mut t, &[]);
    put(&mut t, &["AndroidManifest.xml"], b"<decoded/>");
    put(&mut t, &["apktool.yml"], b"yml");
    put(&mut t, &["classes.dex"], b"dex1");
    put(&mut t, &["classes2.dex"], b"dex2");
    dir(&mut t, &["res"]);
    put(&mut t, &["res", "values.xml"], b"values");
    dir(&mut t, &["assets"]);
    put(&mut t, &["assets", "a.bin"], b"asset");
    dir(&mut t, &["assets", "fonts"]);
    put(&mut t, &["assets", "fonts", "f.ttf"], b"font");
    dir(&mut t, &["lib"]);
    dir(&mut t, &["lib", "arm64-v8a"]);
    put(&mut t, &["lib", "arm64-v8a", "libx.so"], b"so");
    dir(&mut t, &["unknown"]);
    put(&mut t, &["unknown", "stuff.properties"], b"props");
    dir(&mut t, &["kotlin"]);
    put(&mut t, &["kotlin", "kotlin.kotlin_builtins"], b"kb");
    dir(&mut t, &["original"]);
    dir(&mut t, &["original", "META-INF"]);
    put(&mut t, &["original", "META-INF", "CERT.RSA"], b"rsa");
    put(&mut t, &["original", "META-INF", "MANIFEST.MF"], b"mf");
    put(&mut t, &["original", "META-INF", "CERT.SF"], b"sf");
    put(&mut t, &["original", "META-INF", "services.txt"], b"services");
    dir(&mut t, &["original", "META-INF", "nested"]);
    put(&mut t, &["original", "META-INF", "nested", "INNER.SF"], b"inner");
    dir(&mut t, &["base"]);
    put(&mut t, &["base", "AndroidManifest.xml"], b"<proto/>");
    put(&mut t, &["base", "resources.pb"], b"pb");
    t
}

#[test]
fn manifest_moves_into_its_directory() {
    let out = copy_resources(decoded(), &b"<proto/>".to_vec()).unwrap();
    assert!(out.is_dir(&rp(&["base", "manifest"])));
    assert_eq!(content(&out, &["base", "manifest", "AndroidManifest.xml"]), Some(b"<proto/>".to_vec()));
    assert!(!out.contains(&rp(&["base", "AndroidManifest.xml"])));
    // the decoded manifest in the output directory is not touched
    assert_eq!(content(&out, &["AndroidManifest.xml"]), Some(b"<decoded/>".to_vec()));
    assert_eq!(content(&out, &["base", "resources.pb"]), Some(b"pb".to_vec()));
}

#[test]
fn parts_are_taken_over_to_their_places() {
    let out = copy_resources(decoded(), &b"<proto/>".to_vec()).unwrap();
    assert_eq!(content(&out, &["base", "assets", "a.bin"]), Some(b"asset".to_vec()));
    assert_eq!(content(&out, &["base", "assets", "fonts", "f.ttf"]), Some(b"font".to_vec()));
    assert_eq!(content(&out, &["base", "lib", "arm64-v8a", "libx.so"]), Some(b"so".to_vec()));
    assert_eq!(
        content(&out, &["base", "root", "root", "unknown", "stuff.properties"]),
        Some(b"props".to_vec())
    );
    assert_eq!(
        content(&out, &["base", "root", "kotlin", "kotlin.kotlin_builtins"]),
        Some(b"kb".to_vec())
    );
    assert!(out.is_dir(&rp(&["base", "root"])));
    // the sources stay
    assert_eq!(content(&out, &["assets", "a.bin"]), Some(b"asset".to_vec()));
    assert_eq!(content(&out, &["lib", "arm64-v8a", "libx.so"]), Some(b"so".to_vec()));
    // resources are not part of the layout
    assert!(!out.contains(&rp(&["base", "res"])));
}

#[test]
fn signature_files_are_stripped_from_the_copied_meta_inf() {
    let out = copy_resources(decoded(), &b"<proto/>".to_vec()).unwrap();
    let meta = ["base", "root", "root", "META-INF"];
    assert!(out.is_dir(&rp(&meta)));
    assert!(!out.contains(&rp(&["base", "root", "root", "META-INF", "CERT.RSA"])));
    assert!(!out.contains(&rp(&["base", "root", "root", "META-INF", "MANIFEST.MF"])));
    assert!(!out.contains(&rp(&["base", "root", "root", "META-INF", "CERT.SF"])));
    assert_eq!(
        content(&out, &["base", "root", "root", "META-INF", "services.txt"]),
        Some(b"services".to_vec())
    );
    // only files directly in the directory are looked at
    assert_eq!(
        content(&out, &["base", "root", "root", "META-INF", "nested", "INNER.SF"]),
        Some(b"inner".to_vec())
    );
    // the package's own META-INF keeps its signature files
    assert_eq!(content(&out, &["original", "META-INF", "CERT.RSA"]), Some(b"rsa".to_vec()));
    // no file directly in the copy has a signature name
    for i in 0..out.len() {
        let path = out.path_at(i).unwrap();
        if path.len() == 5 && path[..4] == rp(&meta)[..] && !out.node_at(i).unwrap().is_dir() {
            let name = &path[4];
            assert!(!name.contains(".RSA") && !name.contains(".MF") && !name.contains(".SF"));
        }
    }
}

#[test]
fn bytecode_is_gathered_from_the_output_directory() {
    let out = copy_resources(decoded(), &b"<proto/>".to_vec()).unwrap();
    assert!(out.is_dir(&rp(&["base", "dex"])));
    assert_eq!(content(&out, &["base", "dex", "classes.dex"]), Some(b"dex1".to_vec()));
    assert_eq!(content(&out, &["base", "dex", "classes2.dex"]), Some(b"dex2".to_vec()));
    assert!(!out.contains(&rp(&["base", "dex", "apktool.yml"])));
    assert_eq!(content(&out, &["classes.dex"]), Some(b"dex1".to_vec()));
}

#[test]
fn parts_that_are_not_there_are_passed_over() {
    let mut t = FileTree::new();
    dir(&mut t, &[]);
    dir(&mut t, &["base"]);
    put(&mut t, &["base", "AndroidManifest.xml"], b"m");
    let out = copy_resources(t, &b"m".to_vec()).unwrap();
    assert_eq!(content(&out, &["base", "manifest", "AndroidManifest.xml"]), Some(b"m".to_vec()));
    assert!(!out.contains(&rp(&["base", "assets"])));
    assert!(!out.contains(&rp(&["base", "lib"])));
    assert!(!out.contains(&rp(&["base", "root", "root"])));
    assert!(!out.contains(&rp(&["base", "root", "kotlin"])));
    assert!(out.is_dir(&rp(&["base", "root"])));
    assert!(out.is_dir(&rp(&["base", "dex"])));
}

#[test]
fn meta_inf_that_was_there_before_is_left_alone_when_nothing_is_copied() {
    let mut t = FileTree::new();
    dir(&mut t, &[]);
    dir(&mut t, &["base"]);
    put(&mut t, &["base", "AndroidManifest.xml"], b"m");
    put(&mut t, &["base", "root", "root", "META-INF", "OLD.RSA"], b"old");
    let out = copy_resources(t, &b"m".to_vec()).unwrap();
    assert_eq!(
        content(&out, &["base", "root", "root", "META-INF", "OLD.RSA"]),
        Some(b"old".to_vec())
    );
}

#[test]
fn corrupted_manifest_copy_fails_the_stage() {
    let r = copy_resources(decoded(), &b"<proto/>!".to_vec());
    assert!(matches!(r, Err(TransferError::Md5Mismatch)));
}

#[test]
fn missing_manifest_fails_the_stage() {
    let mut t = decoded();
    t.remove(&rp(&["base", "AndroidManifest.xml"]));
    let r = copy_resources(t, &b"<proto/>".to_vec());
    assert!(matches!(
        r,
        Err(TransferError::SourceMissing(p)) if p == rp(&["base", "AndroidManifest.xml"])
    ));
}

#[test]
fn file_in_the_place_of_the_module_directory_fails_the_stage() {
    let mut t = FileTree::new();
    dir(&mut t, &[]);
    put(&mut t, &["base"], b"a file");
    let r = copy_resources(t, &Vec::new());
    assert!(matches!(r, Err(TransferError::NotADirectory(p)) if p == rp(&["base"])));
}

#[test]
fn part_that_is_a_file_cannot_go_into_its_directory() {
    let mut t = decoded();
    t.remove(&rp(&["assets", "a.bin"]));
    t.remove(&rp(&["assets", "fonts"]));
    t.remove(&rp(&["assets", "fonts", "f.ttf"]));
    put(&mut t, &["assets"], b"not a directory");
    let r = copy_resources(t, &b"<proto/>".to_vec());
    assert!(matches!(r, Err(TransferError::IsADirectory(p)) if p == rp(&["base", "assets"])));
}

#[test]
fn copy_part_makes_the_way_and_merges() {
    let mut t = FileTree::new();
    dir(&mut t, &["src"]);
    put(&mut t, &["src", "f"], b"f");
    put(&mut t, &["a", "b", "old"], b"old");
    assert!(copy_part(&mut t, &rp(&["src"]), &rp(&["a", "b"])).is_ok());
    assert!(t.is_dir(&rp(&["a"])));
    assert!(t.is_dir(&rp(&["a", "b"])));
    assert_eq!(content(&t, &["a", "b", "f"]), Some(b"f".to_vec()));
    assert_eq!(content(&t, &["a", "b", "old"]), Some(b"old".to_vec()));
    // nothing at the source: nothing happens
    let before = t.len();
    assert!(copy_part(&mut t, &rp(&["nothing"]), &rp(&["x", "y"])).is_ok());
    assert_eq!(t.len(), before);
    assert!(!t.contains(&rp(&["x"])));
}

#[test]
fn module_archive_holds_the_manifest_where_the_bundle_builder_looks() {
    let out = copy_resources(decoded(), &b"<proto/>".to_vec()).unwrap();
    // the walk of the module directory, as it would be read from the disk
    let mut walk = Vec::new();
    for i in 0..out.len() {
        let path = out.path_at(i).unwrap();
        if path.first().map(|s| s.as_str()) != Some("base") {
            continue;
        }
        let parts: Vec<PathPart> = path.iter().map(|n| PathPart::Normal(n.clone())).collect();
        let node = out.node_at(i).unwrap();
        let data = match out.get(path) {
            Some(abtool::tree::Node::File(bytes)) => bytes.clone(),
            _ => Vec::new(),
        };
        walk.push(WalkEntry { path: parts, is_file: !node.is_dir(), data });
    }
    let prefix = vec![PathPart::Normal("base".to_string())];
    let bytes = zip_dir(&walk, &prefix, Compression::Deflated).unwrap();
    let files = unzip(bytes, "base").unwrap();
    let manifest: Vec<&abtool::archive::Extracted> =
        files.iter().filter(|f| f.path == "base/manifest/AndroidManifest.xml").collect();
    assert_eq!(manifest.len(), 1);
    assert_eq!(manifest[0].data, b"<proto/>".to_vec());
    assert!(files.iter().any(|f| f.path == "base/dex/classes.dex" && !f.is_dir));
    assert!(files.iter().any(|f| f.path == "base/manifest/" && f.is_dir));
    assert!(files.iter().all(|f| !f.path.contains(".RSA")));
}
