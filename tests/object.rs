use carbon::error::SyncError;
use carbon::object::{
    render_path, DirObject, EntryKind, FileObject, LinkObject, Object, SourceFileObject,
};
use carbon::path::FsPath;
use std::collections::hash_map::DefaultHasher;
use std::hash::Hasher;

#[test]
fn file_render_path() {
    let source = FsPath::parse("/notes/projects/carbon.md");
    let source_root = FsPath::parse("/notes/");
    let render_root = FsPath::parse("/notes/_rendered/");
    assert_eq!(
        render_path(&source, &source_root, &render_root),
        Ok(FsPath::parse("/notes/_rendered/projects/carbon.md"))
    );
}

#[test]
fn file_render_path_adjacent() {
    let source = FsPath::parse("/notes/projects/carbon.md");
    let source_root = FsPath::parse("/notes/");
    let render_root = FsPath::parse("/docs/_rendered/");
    assert_eq!(
        render_path(&source, &source_root, &render_root),
        Ok(FsPath::parse("/docs/_rendered/projects/carbon.md"))
    );
}

#[test]
fn dir_render_path() {
    let source = FsPath::parse("/notes/projects/carbon");
    let source_root = FsPath::parse("/notes/");
    let render_root = FsPath::parse("/notes/_rendered/");
    assert_eq!(
        render_path(&source, &source_root, &render_root),
        Ok(FsPath::parse("/notes/_rendered/projects/carbon"))
    );
}

#[test]
fn dir_render_path_adjacent() {
    let source = FsPath::parse("/notes/projects/carbon");
    let source_root = FsPath::parse("/notes/");
    let render_root = FsPath::parse("/docs/_rendered/");
    assert_eq!(
        render_path(&source, &source_root, &render_root),
        Ok(FsPath::parse("/docs/_rendered/projects/carbon"))
    );
}

#[test]
fn render_path_outside_root_is_invalid_input() {
    let source = FsPath::parse("/elsewhere/carbon.md");
    let source_root = FsPath::parse("/notes/");
    let render_root = FsPath::parse("/out/");
    assert_eq!(
        render_path(&source, &source_root, &render_root),
        Err(SyncError::InvalidInput)
    );
}

#[test]
fn extend_updates_contents_hash() {
    let mut dir = DirObject::new(FsPath::new(), FsPath::new());
    let children: Vec<Object> = vec![
        DirObject::from_path("/some/path").into(),
        SourceFileObject::from_path("/some/source-file-path").into(),
        FileObject::from_path("/some/file-path").into(),
        LinkObject::from_path("/some/link-path").into(),
    ];

    let mut hasher = DefaultHasher::new();
    for child in &children {
        hasher.write(&child.identity());
    }
    dir.extend(children);

    assert_eq!(dir.children.len(), 4);
    assert_eq!(dir.children_hash, hasher.finish().into());
}

#[test]
fn identity_is_kind_then_name() {
    let doc: Object = SourceFileObject::from_path("/a/notes.md").into();
    assert_eq!(doc.identity(), vec![0, b'n', b'o', b't', b'e', b's', b'.', b'm', b'd', 0xff]);
    let dir: Object = DirObject::from_path("/a/sub").into();
    assert_eq!(dir.identity(), vec![2, b's', b'u', b'b', 0xff]);
}

#[test]
fn renaming_a_child_changes_the_structural_hash() {
    let mut before = DirObject::from_path("/a");
    before.extend(vec![SourceFileObject::from_path("/a/old.md").into()]);
    let mut after = DirObject::from_path("/a");
    after.extend(vec![SourceFileObject::from_path("/a/new.md").into()]);
    assert_ne!(before.children_hash, after.children_hash);
    let mut again = DirObject::from_path("/a");
    again.extend(vec![SourceFileObject::from_path("/a/old.md").into()]);
    assert_eq!(before.children_hash, again.children_hash);
}

#[test]
fn classify_markdown_as_source_document() {
    let root = FsPath::parse("/notes");
    let out = FsPath::parse("/site");
    let obj = Object::new(FsPath::parse("/notes/x/a.md"), EntryKind::File, b"X", &root, &out);
    match obj {
        Ok(Object::SourceFile(f)) => {
            assert_eq!(f.path, FsPath::parse("/notes/x/a.md"));
            assert_eq!(f.render_path, FsPath::parse("/site/x/a.html"));
            let mut hasher = DefaultHasher::new();
            hasher.write(b"X");
            hasher.write(&[0xff]);
            assert_eq!(u64::from(f.contents_hash), hasher.finish());
        }
        other => panic!("expected a source document, found {:?}", other),
    }
}

#[test]
fn classify_other_files_dirs_and_links() {
    let root = FsPath::parse("/notes");
    let out = FsPath::parse("/site");
    assert!(matches!(
        Object::new(FsPath::parse("/notes/a.txt"), EntryKind::File, b"", &root, &out),
        Ok(Object::File(_))
    ));
    assert!(matches!(
        Object::new(FsPath::parse("/notes/.md"), EntryKind::File, b"", &root, &out),
        Ok(Object::File(_))
    ));
    match Object::new(FsPath::parse("/notes/sub"), EntryKind::Dir, b"", &root, &out) {
        Ok(Object::Dir(d)) => assert_eq!(d.render_path, FsPath::parse("/site/sub")),
        other => panic!("expected a directory, found {:?}", other),
    }
    assert!(matches!(
        Object::new(FsPath::parse("/notes/l"), EntryKind::Symlink, b"", &root, &out),
        Ok(Object::Symlink(_))
    ));
    assert!(matches!(
        Object::new(FsPath::parse("/notes/p"), EntryKind::Other, b"", &root, &out),
        Err(SyncError::Unclassifiable)
    ));
    assert!(matches!(
        Object::new(FsPath::parse("/other/a.md"), EntryKind::File, b"", &root, &out),
        Err(SyncError::InvalidInput)
    ));
}
