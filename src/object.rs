//! The nodes of the source tree: documents to render, plain files,
//! directories and links, each with its source path and, where it is
//! rendered, its output path.
use crate::error::SyncError;
use crate::hash::{
    content_writes, digest, hash_content, DirChildrenHash, MerkleHash, SourceContentsHash,
    STRING_END,
};
use crate::path::{
    join_view, name_bytes, strip_view, with_extension_view, extension, FsPath, PathView,
};
use std::collections::hash_map::DefaultHasher;
use std::hash::Hasher;
use vstd::prelude::*;
use vstd::string::StringSliceAdditionalSpecFns;

verus! {

/// Extension of the documents that are rendered.
pub const SOURCE_EXTENSION: &'static str = "md";

/// Extension of a rendered document.
pub const RENDERED_EXTENSION: &'static str = "html";

/// What the filesystem says an entry is.
#[derive(Debug, Clone, Copy, PartialEq, Eq, Structural)]
pub enum EntryKind {
    File,
    Dir,
    Symlink,
    Other,
}

/// A node of the source tree.
#[derive(Debug)]
pub enum Object {
    /// File that is rendered: a markdown document.
    SourceFile(SourceFileObject),
    /// File that is not rendered.
    File(FileObject),
    Dir(DirObject),
    Symlink(LinkObject),
}

/// A document to render, with the hash of its content.
#[derive(Debug, Clone)]
pub struct SourceFileObject {
    pub path: FsPath,
    pub render_path: FsPath,
    pub contents_hash: SourceContentsHash,
}

/// A file that is neither rendered nor tracked.
#[derive(Debug, Clone)]
pub struct FileObject {
    pub path: FsPath,
}

/// A directory, owning its children, with its structural and merkle hashes.
#[derive(Debug)]
pub struct DirObject {
    pub path: FsPath,
    pub render_path: FsPath,
    pub children: Vec<Object>,
    pub merkle_hash: MerkleHash,
    pub children_hash: DirChildrenHash,
}

/// A symbolic link, never followed.
#[derive(Debug, Clone)]
pub struct LinkObject {
    pub path: FsPath,
}

/// Where the output for `source` goes: the same place relative to
/// `render_root` as `source` is relative to `source_root`.
pub open spec fn render_view(source: PathView, source_root: PathView, render_root: PathView) -> Option<PathView> {
    match strip_view(source, source_root) {
        Some(rel) => Some(join_view(render_root, rel)),
        None => None,
    }
}

/// Whether a path names a document to render.
pub open spec fn is_source_path(p: PathView) -> bool {
    extension(p) == Some(SOURCE_EXTENSION.spec_bytes())
}

/// Where the rendered page of the document at `source` goes.
pub open spec fn page_view(source: PathView, source_root: PathView, render_root: PathView) -> Option<PathView> {
    match render_view(source, source_root, render_root) {
        Some(out) => Some(with_extension_view(out, RENDERED_EXTENSION.spec_bytes())),
        None => None,
    }
}

/// The byte that tells the kinds of node apart in a directory's structural hash.
pub open spec fn tag(o: Object) -> u8 {
    match o {
        Object::SourceFile(_) => 0,
        Object::File(_) => 1,
        Object::Dir(_) => 2,
        Object::Symlink(_) => 3,
    }
}

/// What a child contributes to its directory's structural hash: its kind
/// and its name, which is its identity within the directory.
pub open spec fn identity(o: Object) -> Seq<u8> {
    seq![tag(o)] + name_bytes(o.spec_path()@) + seq![STRING_END]
}

/// The writes that make up the structural hash of a list of children.
pub open spec fn structural_writes(children: Seq<Object>) -> Seq<Seq<u8>> {
    children.map_values(|c: Object| identity(c))
}

/// The structural hash of a list of children.
pub open spec fn structural_hash(children: Seq<Object>) -> u64 {
    digest(structural_writes(children))
}

/// The output path for `source`, placed under `render_root` as `source` is
/// placed under `source_root`.
pub fn render_path(source: &FsPath, source_root: &FsPath, render_root: &FsPath) -> (r: Result<FsPath, SyncError>)
    ensures
        match render_view(source@, source_root@, render_root@) {
            Some(v) => r is Ok && r->Ok_0@ == v,
            None => r == Err::<FsPath, SyncError>(SyncError::InvalidInput),
        },
{
    match source.strip_prefix(source_root) {
        Some(rel) => Ok(render_root.join(&rel)),
        None => Err(SyncError::InvalidInput),
    }
}

/// Whether the file at `path` is a document to render.
pub fn is_source_file(path: &FsPath) -> (r: bool)
    ensures
        r == is_source_path(path@),
{
    path.has_extension(SOURCE_EXTENSION)
}

/// The hash of the identities of `children`, in order.
fn children_digest(children: &Vec<Object>) -> (r: u64)
    ensures
        r == structural_hash(children@),
{
    let mut hasher = DefaultHasher::new();
    let mut i: usize = 0;
    assert(structural_writes(children@.subrange(0, 0)) =~= seq![]);
    while i < children.len()
        invariant
            i <= children@.len(),
            hasher@ == structural_writes(children@.subrange(0, i as int)),
        decreases children@.len() - i,
    {
        let rec = children[i].identity();
        hasher.write(rec.as_slice());
        assert(structural_writes(children@.subrange(0, i + 1)) =~= structural_writes(
            children@.subrange(0, i as int),
        ).push(identity(children@[i as int])));
        i += 1;
    }
    assert(children@.subrange(0, children@.len() as int) =~= children@);
    hasher.finish()
}

impl Object {
    pub open spec fn spec_path(&self) -> FsPath {
        match self {
            Object::SourceFile(x) => x.path,
            Object::File(x) => x.path,
            Object::Dir(x) => x.path,
            Object::Symlink(x) => x.path,
        }
    }

    /// Classifies the entry at `path`. `content` holds the entry's bytes
    /// where it is a document to render, and is not read otherwise.
    pub fn new(
        path: FsPath,
        kind: EntryKind,
        content: &[u8],
        source_root: &FsPath,
        render_root: &FsPath,
    ) -> (r: Result<Object, SyncError>)
        ensures
            kind == EntryKind::Other ==> r == Err::<Object, SyncError>(SyncError::Unclassifiable),
            kind == EntryKind::Symlink ==> (r matches Ok(Object::Symlink(l)) && l.path == path),
            kind == EntryKind::File && !is_source_path(path@) ==> (r matches Ok(Object::File(f))
                && f.path == path),
            kind == EntryKind::File && is_source_path(path@) ==> match page_view(
                path@,
                source_root@,
                render_root@,
            ) {
                Some(v) => r matches Ok(Object::SourceFile(s)) && s.path == path && s.render_path@
                    == v && s.contents_hash.0 == digest(content_writes(content@)),
                None => r == Err::<Object, SyncError>(SyncError::InvalidInput),
            },
            kind == EntryKind::Dir ==> match render_view(path@, source_root@, render_root@) {
                Some(v) => r matches Ok(Object::Dir(d)) && d.path == path && d.render_path@ == v
                    && d.children@.len() == 0 && d.children_hash.0 == structural_hash(d.children@)
                    && d.merkle_hash.0 == 0,
                None => r == Err::<Object, SyncError>(SyncError::InvalidInput),
            },
    {
        match kind {
            EntryKind::File => {
                if !is_source_file(&path) {
                    Ok(Object::File(FileObject::new(path)))
                } else {
                    match SourceFileObject::with_source(path, source_root, render_root, content) {
                        Ok(s) => Ok(Object::SourceFile(s)),
                        Err(e) => Err(e),
                    }
                }
            },
            EntryKind::Dir => match DirObject::with_source(path, source_root, render_root) {
                Ok(d) => Ok(Object::Dir(d)),
                Err(e) => Err(e),
            },
            EntryKind::Symlink => Ok(Object::Symlink(LinkObject::new(path))),
            EntryKind::Other => Err(SyncError::Unclassifiable),
        }
    }

    /// The source path of this node.
    pub fn path(&self) -> (r: &FsPath)
        ensures
            *r == self.spec_path(),
    {
        match self {
            Object::File(x) => &x.path,
            Object::SourceFile(x) => &x.path,
            Object::Dir(x) => &x.path,
            Object::Symlink(x) => &x.path,
        }
    }

    /// The bytes this node contributes to its directory's structural hash.
    pub fn identity(&self) -> (r: Vec<u8>)
        ensures
            r@ == identity(*self),
    {
        let mut r: Vec<u8> = Vec::new();
        let t: u8 = match self {
            Object::SourceFile(_) => 0,
            Object::File(_) => 1,
            Object::Dir(_) => 2,
            Object::Symlink(_) => 3,
        };
        r.push(t);
        let name = self.path().file_name_bytes();
        let mut i: usize = 0;
        while i < name.len()
            invariant
                i <= name@.len(),
                r@ == seq![t] + name@.subrange(0, i as int),
            decreases name@.len() - i,
        {
            r.push(name[i]);
            i += 1;
            assert(r@ =~= seq![t] + name@.subrange(0, i as int));
        }
        r.push(STRING_END);
        assert(r@ =~= identity(*self));
        r
    }
}

impl From<SourceFileObject> for Object {
    fn from(file: SourceFileObject) -> Self {
        Object::SourceFile(file)
    }
}

impl vstd::std_specs::convert::FromSpecImpl<SourceFileObject> for Object {
    open spec fn obeys_from_spec() -> bool {
        true
    }

    open spec fn from_spec(v: SourceFileObject) -> Self {
        Object::SourceFile(v)
    }
}

impl From<FileObject> for Object {
    fn from(file: FileObject) -> Self {
        Object::File(file)
    }
}

impl vstd::std_specs::convert::FromSpecImpl<FileObject> for Object {
    open spec fn obeys_from_spec() -> bool {
        true
    }

    open spec fn from_spec(v: FileObject) -> Self {
        Object::File(v)
    }
}

impl From<DirObject> for Object {
    fn from(dir: DirObject) -> Self {
        Object::Dir(dir)
    }
}

impl vstd::std_specs::convert::FromSpecImpl<DirObject> for Object {
    open spec fn obeys_from_spec() -> bool {
        true
    }

    open spec fn from_spec(v: DirObject) -> Self {
        Object::Dir(v)
    }
}

impl From<LinkObject> for Object {
    fn from(link: LinkObject) -> Self {
        Object::Symlink(link)
    }
}

impl vstd::std_specs::convert::FromSpecImpl<LinkObject> for Object {
    open spec fn obeys_from_spec() -> bool {
        true
    }

    open spec fn from_spec(v: LinkObject) -> Self {
        Object::Symlink(v)
    }
}

impl SourceFileObject {
    /// The document at `path` with content `content`, and the place of its
    /// rendered page.
    pub fn with_source(path: FsPath, source_root: &FsPath, render_root: &FsPath, content: &[u8]) -> (r:
        Result<SourceFileObject, SyncError>)
        ensures
            match page_view(path@, source_root@, render_root@) {
                Some(v) => r matches Ok(s) && s.path == path && s.render_path@ == v
                    && s.contents_hash.0 == digest(content_writes(content@)),
                None => r == Err::<SourceFileObject, SyncError>(SyncError::InvalidInput),
            },
    {
        let out = match render_path(&path, source_root, render_root) {
            Ok(out) => out,
            Err(e) => return Err(e),
        };
        let render_path = out.with_extension(RENDERED_EXTENSION);
        let contents_hash = hash_content(content);
        Ok(SourceFileObject { path, render_path, contents_hash })
    }

    /// A document at `path` with no output path and a zero content hash.
    pub fn from_path(path: &str) -> (r: SourceFileObject)
        ensures
            r.path@ == crate::path::parse_bytes(path.spec_bytes()),
            r.render_path@.parts.len() == 0,
            r.contents_hash.0 == 0,
    {
        let mut r = SourceFileObject::default();
        r.path = FsPath::parse(path);
        r
    }
}

impl Default for SourceFileObject {
    fn default() -> (r: Self)
        ensures
            r.path@.parts.len() == 0,
            r.render_path@.parts.len() == 0,
            r.contents_hash.0 == 0,
    {
        SourceFileObject {
            path: FsPath::new(),
            render_path: FsPath::new(),
            contents_hash: SourceContentsHash(0),
        }
    }
}

impl FileObject {
    pub fn new(path: FsPath) -> (r: FileObject)
        ensures
            r.path == path,
    {
        FileObject { path }
    }

    /// A plain file at `path`.
    pub fn from_path(path: &str) -> (r: FileObject)
        ensures
            r.path@ == crate::path::parse_bytes(path.spec_bytes()),
    {
        FileObject { path: FsPath::parse(path) }
    }
}

impl DirObject {
    /// An empty directory.
    pub fn new(path: FsPath, render_path: FsPath) -> (r: DirObject)
        ensures
            r.path == path,
            r.render_path == render_path,
            r.children@.len() == 0,
            r.children_hash.0 == structural_hash(r.children@),
            r.merkle_hash.0 == 0,
    {
        let children: Vec<Object> = Vec::new();
        let h = children_digest(&children);
        DirObject {
            path,
            render_path,
            children,
            merkle_hash: MerkleHash(0),
            children_hash: DirChildrenHash(h),
        }
    }

    /// An empty directory at `path`, with its output placed under
    /// `render_root` as `path` is placed under `source_root`.
    pub fn with_source(path: FsPath, source_root: &FsPath, render_root: &FsPath) -> (r: Result<
        DirObject,
        SyncError,
    >)
        ensures
            match render_view(path@, source_root@, render_root@) {
                Some(v) => r matches Ok(d) && d.path == path && d.render_path@ == v
                    && d.children@.len() == 0 && d.children_hash.0 == structural_hash(d.children@)
                    && d.merkle_hash.0 == 0,
                None => r == Err::<DirObject, SyncError>(SyncError::InvalidInput),
            },
    {
        match render_path(&path, source_root, render_root) {
            Ok(out) => Ok(DirObject::new(path, out)),
            Err(e) => Err(e),
        }
    }

    /// An empty directory at `path`, with an empty output path.
    pub fn from_path(path: &str) -> (r: DirObject)
        ensures
            r.path@ == crate::path::parse_bytes(path.spec_bytes()),
            r.render_path@.parts.len() == 0,
            r.children@.len() == 0,
            r.children_hash.0 == structural_hash(r.children@),
            r.merkle_hash.0 == 0,
    {
        DirObject::new(FsPath::parse(path), FsPath::new())
    }

    /// Appends `children` and recomputes the structural hash over all children.
    pub fn extend(&mut self, children: Vec<Object>)
        ensures
            final(self).children@ == old(self).children@ + children@,
            final(self).children_hash.0 == structural_hash(final(self).children@),
            final(self).path == old(self).path,
            final(self).render_path == old(self).render_path,
            final(self).merkle_hash == old(self).merkle_hash,
    {
        let mut children = children;
        self.children.append(&mut children);
        self.children_hash = DirChildrenHash(children_digest(&self.children));
    }
}

impl Default for DirObject {
    fn default() -> (r: Self)
        ensures
            r.path@.parts.len() == 0,
            r.render_path@.parts.len() == 0,
            r.children@.len() == 0,
            r.children_hash.0 == structural_hash(r.children@),
            r.merkle_hash.0 == 0,
    {
        DirObject::new(FsPath::new(), FsPath::new())
    }
}

impl LinkObject {
    pub fn new(path: FsPath) -> (r: LinkObject)
        ensures
            r.path == path,
    {
        LinkObject { path }
    }

    /// A link at `path`.
    pub fn from_path(path: &str) -> (r: LinkObject)
        ensures
            r.path@ == crate::path::parse_bytes(path.spec_bytes()),
    {
        LinkObject { path: FsPath::parse(path) }
    }
}

} // verus!
