use carbon::index::{entries, render_path, IndexEntry};
use carbon::object::{DirObject, FileObject, Object, SourceFileObject};
use carbon::path::FsPath;
use carbon::render::{MathjaxPolicy, RenderConfig};

#[test]
fn index_lives_in_the_rendered_directory() {
    let dir = DirObject::new(FsPath::parse("/src/sub"), FsPath::parse("/out/sub"));
    assert_eq!(render_path(&dir), FsPath::parse("/out/sub/index.html"));
}

#[test]
fn entries_link_to_outputs() {
    let mut dir = DirObject::new(FsPath::parse("/src"), FsPath::parse("/out"));
    let doc = SourceFileObject {
        path: FsPath::parse("/src/a.md"),
        render_path: FsPath::parse("/out/a.html"),
        ..Default::default()
    };
    let sub = DirObject::new(FsPath::parse("/src/sub"), FsPath::parse("/out/sub"));
    dir.extend(vec![doc.into(), sub.into(), FileObject::from_path("/src/x.txt").into()]);
    let list = entries(&dir);
    assert_eq!(list.len(), 3);
    assert_eq!(list[0].path(), &FsPath::parse("/out/a.html"));
    assert_eq!(list[1].path(), &FsPath::parse("/out/sub/index.html"));
    assert_eq!(list[2].path(), &FsPath::parse("/src/x.txt"));
    assert_eq!(list[2].render_path, None);
    let one: Object = FileObject::from_path("/src/y").into();
    assert_eq!(IndexEntry::from_object(&one).source, FsPath::parse("/src/y"));
}

#[test]
fn default_render_config() {
    let config = RenderConfig::with_home(&FsPath::parse("/home/me"));
    assert_eq!(
        config.stylesheet_path,
        Some(FsPath::parse("/home/me/code/carbon-notes/style/github.css"))
    );
    assert!(!config.should_inline_stylesheet);
    assert_eq!(config.code_block_theme, "base16-ocean.dark");
    assert_eq!(config.mathjax_policy, MathjaxPolicy::Always);
}
