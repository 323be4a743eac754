use carbon::error::SyncError;
use carbon::hash::{MerkleHash, SourceContentsHash};
use carbon::object::{DirObject, EntryKind, FileObject, LinkObject, Object, SourceFileObject};
use carbon::path::FsPath;
use carbon::store::{HashStore, HashStoreRw};
use carbon::builder::Entry;
use carbon::tree::{Dir, DirTree};
use std::collections::hash_map::DefaultHasher;
use std::collections::HashMap;
use std::hash::{Hash, Hasher};

fn obj2dir(object: &Object) -> &DirObject {
    if let Object::Dir(dir) = object {
        dir
    } else {
        panic!("expected DirObject, found {:?}", object);
    }
}

#[test]
fn compute_merkle_hash_dir() {
    let mut dir = DirObject {
        path: FsPath::parse("/a"),
        ..Default::default()
    };

    let mut hasher = DefaultHasher::new();
    dir.children_hash.hash(&mut hasher);

    DirTree::compute_merkle_hash(&mut dir);

    assert_eq!(dir.merkle_hash, MerkleHash::from(hasher.finish()));
}

#[test]
fn compute_merkle_hash_source_file() {
    let mut dir = DirObject::from_path("/a");
    let file = SourceFileObject {
        path: FsPath::parse("/a/b.txt"),
        contents_hash: 123321.into(),
        ..Default::default()
    };

    dir.extend(vec![file.clone().into()]);

    let mut hasher = DefaultHasher::new();
    dir.children_hash.hash(&mut hasher);
    file.contents_hash.hash(&mut hasher);

    DirTree::compute_merkle_hash(&mut dir);
    assert_eq!(dir.merkle_hash, MerkleHash::from(hasher.finish()));
}

#[test]
fn compute_merkle_hash_file() {
    let mut dir = DirObject::from_path("/a");
    let file = FileObject::from_path("/a/b.txt");

    dir.extend(vec![file.into()]);

    let mut hasher = DefaultHasher::new();
    dir.children_hash.hash(&mut hasher);

    DirTree::compute_merkle_hash(&mut dir);
    assert_eq!(dir.merkle_hash, MerkleHash::from(hasher.finish()));
}

#[test]
fn compute_merkle_hash_link() {
    let mut dir = DirObject::from_path("/a");
    let link = LinkObject::from_path("/a/b.txt");

    dir.extend(vec![link.into()]);

    let mut hasher = DefaultHasher::new();
    dir.children_hash.hash(&mut hasher);

    DirTree::compute_merkle_hash(&mut dir);
    assert_eq!(dir.merkle_hash, MerkleHash::from(hasher.finish()));
}

#[test]
fn compute_merkle_hash_empty_subdirs() {
    let mut root = DirObject::from_path("/a");
    let subdir_b = DirObject::from_path("/a/b");
    let subdir_c = DirObject::from_path("/a/c");

    let mut subdir_b_hasher = DefaultHasher::new();
    subdir_b.children_hash.hash(&mut subdir_b_hasher);
    let mut subdir_c_hasher = DefaultHasher::new();
    subdir_c.children_hash.hash(&mut subdir_c_hasher);

    root.extend(vec![subdir_b.into(), subdir_c.into()]);

    let mut root_hasher = DefaultHasher::new();
    root.children_hash.hash(&mut root_hasher);
    subdir_b_hasher.finish().hash(&mut root_hasher);
    subdir_c_hasher.finish().hash(&mut root_hasher);

    DirTree::compute_merkle_hash(&mut root);
    assert_eq!(root.merkle_hash, MerkleHash::from(root_hasher.finish()));
    assert_ne!(u64::from(root.merkle_hash), u64::from(root.children_hash));
}

#[test]
fn compute_merkle_hash_subdir_file_path_change() {
    let mut r1_root = DirObject::from_path("/a");
    let mut r1_subdir_b = DirObject::from_path("/a/b");
    let r1_subdir_b_file = FileObject::from_path("/a/b/file-round-1.txt");
    let r1_subdir_c = DirObject::from_path("/a/c");

    r1_subdir_b.extend(vec![r1_subdir_b_file.into()]);
    r1_root.extend(vec![r1_subdir_b.into(), r1_subdir_c.into()]);

    DirTree::compute_merkle_hash(&mut r1_root);

    let mut r2_root = DirObject::from_path("/a");
    let mut r2_subdir_b = DirObject::from_path("/a/b");
    let r2_subdir_b_file = FileObject::from_path("/a/b/file-round-2.txt");
    let r2_subdir_c = DirObject::from_path("/a/c");

    r2_subdir_b.extend(vec![r2_subdir_b_file.into()]);
    r2_root.extend(vec![r2_subdir_b.into(), r2_subdir_c.into()]);

    DirTree::compute_merkle_hash(&mut r2_root);

    assert_ne!(r1_root.merkle_hash, r2_root.merkle_hash);
    assert_eq!(r1_root.children_hash, r2_root.children_hash);
    assert_ne!(
        obj2dir(&r1_root.children[0]).merkle_hash,
        obj2dir(&r2_root.children[0]).merkle_hash
    );
    assert_ne!(
        obj2dir(&r1_root.children[0]).children_hash,
        obj2dir(&r2_root.children[0]).children_hash
    );
    assert_eq!(
        obj2dir(&r1_root.children[1]).merkle_hash,
        obj2dir(&r2_root.children[1]).merkle_hash
    );
    assert_eq!(
        obj2dir(&r1_root.children[1]).children_hash,
        obj2dir(&r2_root.children[1]).children_hash
    );
}

#[test]
fn compute_merkle_hash_subdir_file_content_change() {
    let mut r1_root = DirObject::from_path("/a");
    let mut r1_subdir_b = DirObject::from_path("/a/b");
    let r1_subdir_b_file = SourceFileObject {
        path: FsPath::parse("/a/b/file-round-1.txt"),
        contents_hash: 123321.into(),
        ..Default::default()
    };
    let r1_subdir_c = DirObject::from_path("/a/c");

    r1_subdir_b.extend(vec![r1_subdir_b_file.into()]);
    r1_root.extend(vec![r1_subdir_b.into(), r1_subdir_c.into()]);

    DirTree::compute_merkle_hash(&mut r1_root);

    let mut r2_root = DirObject::from_path("/a");
    let mut r2_subdir_b = DirObject::from_path("/a/b");
    let r2_subdir_b_file = SourceFileObject {
        path: FsPath::parse("/a/b/file-round-1.txt"),
        contents_hash: 789987.into(),
        ..Default::default()
    };
    let r2_subdir_c = DirObject::from_path("/a/c");

    r2_subdir_b.extend(vec![r2_subdir_b_file.into()]);
    r2_root.extend(vec![r2_subdir_b.into(), r2_subdir_c.into()]);

    DirTree::compute_merkle_hash(&mut r2_root);

    assert_ne!(r1_root.merkle_hash, r2_root.merkle_hash);
    assert_eq!(r1_root.children_hash, r2_root.children_hash);
    assert_ne!(
        obj2dir(&r1_root.children[0]).merkle_hash,
        obj2dir(&r2_root.children[0]).merkle_hash
    );
    assert_eq!(
        obj2dir(&r1_root.children[0]).children_hash,
        obj2dir(&r2_root.children[0]).children_hash
    );
    assert_eq!(
        obj2dir(&r1_root.children[1]).merkle_hash,
        obj2dir(&r2_root.children[1]).merkle_hash
    );
    assert_eq!(
        obj2dir(&r1_root.children[1]).children_hash,
        obj2dir(&r2_root.children[1]).children_hash
    );
}

/// A source tree in memory: for each directory, its entries as
/// (name, Some(content)) for a file or (name, None) for a directory.
type Fs = HashMap<String, Vec<(String, Option<String>)>>;

fn entry(dir: &str, name: &str, content: &Option<String>) -> Entry {
    let path = FsPath::parse(&format!("{}/{}", dir, name));
    match content {
        Some(text) => Entry { path, kind: EntryKind::File, content: text.as_bytes().to_vec() },
        None => Entry { path, kind: EntryKind::Dir, content: Vec::new() },
    }
}

fn to_str(p: &FsPath) -> String {
    let parts: Vec<String> =
        p.parts.iter().map(|c| String::from_utf8(c.clone()).unwrap()).collect();
    format!("/{}", parts.join("/"))
}

fn build(fs: &Fs) -> DirTree {
    let mut builder =
        DirTree::with_root(FsPath::parse("/src"), EntryKind::Dir, &FsPath::parse("/out")).unwrap();
    while let Some(dir) = builder.next_dir() {
        let dir = to_str(dir);
        let entries: Vec<Entry> = fs
            .get(&dir)
            .map(|list| list.iter().map(|(n, c)| entry(&dir, n, c)).collect())
            .unwrap_or_default();
        builder.attach(&entries);
    }
    builder.finish()
}

/// Runs one sync over `tree` against `records` (keyed by output directory):
/// returns the documents rendered, the directories whose index was rebuilt,
/// and the directories visited; refreshes the records of visited directories.
fn run(tree: &DirTree, records: &mut HashMap<String, HashStore>) -> (Vec<String>, Vec<String>, Vec<String>) {
    let mut walk = tree.walk();
    let mut items: Vec<Dir> = Vec::new();
    while let Some(pos) = walk.next_dir() {
        let dir = tree.dir_at(pos).unwrap();
        let record = HashStoreRw::from(records.get(&to_str(&dir.render_path)).cloned());
        if let Some(item) = walk.next(tree, &record) {
            items.push(item);
        }
    }
    let mut rendered = Vec::new();
    let mut indexed = Vec::new();
    let mut visited = Vec::new();
    for item in &items {
        let dir = tree.dir_at(&item.at).unwrap();
        visited.push(to_str(&dir.path));
        for k in &item.to_render {
            if let Object::SourceFile(f) = &dir.children[*k] {
                rendered.push(to_str(&f.render_path));
            }
        }
        if item.should_render_index {
            indexed.push(to_str(&dir.path));
        }
    }
    for item in &items {
        let (path, store) = tree.record_at(&item.at).unwrap();
        let dir = tree.dir_at(&item.at).unwrap();
        assert_eq!(to_str(&path), format!("{}/.carbon-hash-store.json", to_str(&dir.render_path)));
        records.insert(to_str(&dir.render_path), store);
    }
    (rendered, indexed, visited)
}

fn worked_example_fs(b: &str) -> Fs {
    let mut fs = Fs::new();
    fs.insert(
        "/src".to_string(),
        vec![("a.md".to_string(), Some("X".to_string())), ("sub".to_string(), None)],
    );
    fs.insert("/src/sub".to_string(), vec![("b.md".to_string(), Some(b.to_string()))]);
    fs
}

#[test]
fn worked_example_three_runs() {
    let mut records = HashMap::new();
    let tree = build(&worked_example_fs("Y"));
    let (rendered, indexed, visited) = run(&tree, &mut records);
    assert_eq!(rendered, vec!["/out/a.html", "/out/sub/b.html"]);
    assert_eq!(indexed, vec!["/src", "/src/sub"]);
    assert_eq!(visited, vec!["/src", "/src/sub"]);
    assert_eq!(records.len(), 2);

    let tree = build(&worked_example_fs("Y"));
    let (rendered, indexed, visited) = run(&tree, &mut records);
    assert!(rendered.is_empty());
    assert!(indexed.is_empty());
    assert!(visited.is_empty());

    let tree = build(&worked_example_fs("Z"));
    let (rendered, indexed, visited) = run(&tree, &mut records);
    assert_eq!(rendered, vec!["/out/sub/b.html"]);
    assert!(indexed.is_empty());
    assert_eq!(visited, vec!["/src", "/src/sub"]);

    let tree = build(&worked_example_fs("Z"));
    let (rendered, indexed, visited) = run(&tree, &mut records);
    assert!(rendered.is_empty() && indexed.is_empty() && visited.is_empty());
}

#[test]
fn rename_rebuilds_parent_index_and_renders_new_name() {
    let mut records = HashMap::new();
    let mut fs = worked_example_fs("Y");
    run(&build(&fs), &mut records);
    fs.insert("/src/sub".to_string(), vec![("c.md".to_string(), Some("Y".to_string()))]);
    let (rendered, indexed, visited) = run(&build(&fs), &mut records);
    assert_eq!(rendered, vec!["/out/sub/c.html"]);
    assert_eq!(indexed, vec!["/src/sub"]);
    assert_eq!(visited, vec!["/src", "/src/sub"]);
}

#[test]
fn deep_edit_visits_only_its_chain() {
    let mut fs = Fs::new();
    fs.insert("/src".to_string(), vec![("x".to_string(), None), ("y".to_string(), None)]);
    fs.insert("/src/x".to_string(), vec![("z".to_string(), None), ("w".to_string(), None)]);
    fs.insert("/src/x/z".to_string(), vec![("deep.md".to_string(), Some("1".to_string()))]);
    fs.insert("/src/x/w".to_string(), vec![("w.md".to_string(), Some("w".to_string()))]);
    fs.insert("/src/y".to_string(), vec![("y.md".to_string(), Some("y".to_string()))]);
    let mut records = HashMap::new();
    let (rendered, _, visited) = run(&build(&fs), &mut records);
    assert_eq!(rendered.len(), 3);
    assert_eq!(visited.len(), 5);

    fs.insert("/src/x/z".to_string(), vec![("deep.md".to_string(), Some("2".to_string()))]);
    let (rendered, indexed, visited) = run(&build(&fs), &mut records);
    assert_eq!(rendered, vec!["/out/x/z/deep.html"]);
    assert!(indexed.is_empty());
    assert_eq!(visited, vec!["/src", "/src/x", "/src/x/z"]);
}

#[test]
fn builder_rejects_a_root_that_is_not_a_directory() {
    let out = FsPath::parse("/out");
    assert!(matches!(
        DirTree::with_root(FsPath::parse("/src/a.md"), EntryKind::File, &out),
        Err(SyncError::InvalidInput)
    ));
    assert!(matches!(
        DirTree::with_root(FsPath::parse("/src/l"), EntryKind::Symlink, &out),
        Err(SyncError::InvalidInput)
    ));
    assert!(matches!(
        DirTree::with_root(FsPath::parse("/src/p"), EntryKind::Other, &out),
        Err(SyncError::Unclassifiable)
    ));
}

#[test]
fn listing_keeps_order_and_drops_unclassifiable_entries() {
    let mut builder =
        DirTree::with_root(FsPath::parse("/src"), EntryKind::Dir, &FsPath::parse("/out")).unwrap();
    let entries = vec![
        Entry { path: FsPath::parse("/src/z.md"), kind: EntryKind::File, content: b"z".to_vec() },
        Entry { path: FsPath::parse("/src/pipe"), kind: EntryKind::Other, content: Vec::new() },
        Entry { path: FsPath::parse("/src/a"), kind: EntryKind::Dir, content: Vec::new() },
        Entry { path: FsPath::parse("/src/link"), kind: EntryKind::Symlink, content: Vec::new() },
    ];
    builder.attach(&entries);
    assert_eq!(builder.next_dir(), Some(&FsPath::parse("/src/a")));
    builder.attach(&Vec::new());
    assert!(builder.is_done());
    let tree = builder.finish();
    let kinds: Vec<&str> = tree
        .root
        .children
        .iter()
        .map(|c| match c {
            Object::SourceFile(_) => "doc",
            Object::File(_) => "file",
            Object::Dir(_) => "dir",
            Object::Symlink(_) => "link",
        })
        .collect();
    assert_eq!(kinds, vec!["doc", "dir", "link"]);
}

#[test]
fn missing_record_means_changed() {
    let rw = HashStoreRw::from(None);
    assert!(!rw.merkle_hash_eq(&MerkleHash::from(0)));
    assert!(!rw.source_hash_eq(&b"a.md".to_vec(), &SourceContentsHash::from(0)));
}

#[test]
fn record_lookup_is_by_document_name() {
    let mut dir = DirObject::new(FsPath::parse("/src/a"), FsPath::parse("/out/a"));
    let doc = SourceFileObject { path: FsPath::parse("/src/a/x.md"), contents_hash: 7.into(), ..Default::default() };
    dir.extend(vec![doc.into(), FileObject::from_path("/src/a/y.txt").into()]);
    let store = HashStore::from_dir(&dir);
    assert_eq!(store.source.len(), 1);
    let rw = HashStoreRw::from(Some(store));
    assert!(rw.source_hash_eq(&b"x.md".to_vec(), &SourceContentsHash::from(7)));
    assert!(!rw.source_hash_eq(&b"x.md".to_vec(), &SourceContentsHash::from(8)));
    assert!(!rw.source_hash_eq(&b"y.txt".to_vec(), &SourceContentsHash::from(0)));
    assert!(!rw.source_hash_eq(&b"z.md".to_vec(), &SourceContentsHash::from(7)));
}

#[test]
fn finished_walk_returns_nothing() {
    let tree = build(&worked_example_fs("Y"));
    let mut walk = tree.walk();
    while walk.next_dir().is_some() {
        walk.next(&tree, &HashStoreRw::from(None));
    }
    assert!(walk.is_done());
    assert!(walk.next(&tree, &HashStoreRw::from(None)).is_none());
}
