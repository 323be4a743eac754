use carbon::path::FsPath;

#[test]
fn parse_drops_empty_and_dot_components() {
    let p = FsPath::parse("/a//b/./c/");
    assert!(p.absolute);
    assert_eq!(p.parts, vec![b"a".to_vec(), b"b".to_vec(), b"c".to_vec()]);
    assert!(!FsPath::parse("a/b").absolute);
}

#[test]
fn extension_checks() {
    assert!(FsPath::parse("/a/notes.md").has_extension("md"));
    assert!(!FsPath::parse("/a/notes.mdx").has_extension("md"));
    assert!(!FsPath::parse("/a/.md").has_extension("md"));
    assert!(!FsPath::parse("/a/md").has_extension("md"));
    assert!(FsPath::parse("/a/b.c.md").has_extension("md"));
}

#[test]
fn with_extension_replaces_or_appends() {
    assert_eq!(FsPath::parse("/a/b.md").with_extension("html"), FsPath::parse("/a/b.html"));
    assert_eq!(FsPath::parse("/a/b").with_extension("html"), FsPath::parse("/a/b.html"));
    assert_eq!(FsPath::parse("/a/b.c.md").with_extension("html"), FsPath::parse("/a/b.c.html"));
    assert_eq!(FsPath::parse("/a/b.md").with_extension(""), FsPath::parse("/a/b"));
}

#[test]
fn join_and_strip_prefix() {
    let base = FsPath::parse("/out");
    assert_eq!(base.join(&FsPath::parse("x/y")), FsPath::parse("/out/x/y"));
    assert_eq!(base.join(&FsPath::parse("/abs")), FsPath::parse("/abs"));
    assert_eq!(
        FsPath::parse("/src/x/y").strip_prefix(&FsPath::parse("/src")),
        Some(FsPath::parse("x/y"))
    );
    assert_eq!(FsPath::parse("/srcx/y").strip_prefix(&FsPath::parse("/src")), None);
    assert_eq!(base.join_name("index.html"), FsPath::parse("/out/index.html"));
}
