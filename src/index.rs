//! What a directory's index page links to: the index's own place, and for
//! each child the output it links to.
use crate::object::{DirObject, Object};
use crate::path::{join_view, parse_bytes, FsPath, PathView};
use vstd::prelude::*;
use vstd::string::StringSliceAdditionalSpecFns;

verus! {

/// Name of a directory's index page.
pub const INDEX_FILE_NAME: &'static str = "index.html";

/// Where the index page of the directory rendered at `dir` goes.
pub open spec fn index_view(dir: PathView) -> PathView {
    join_view(dir, parse_bytes(INDEX_FILE_NAME.spec_bytes()))
}

/// Where the index page of `dir` is written.
pub fn render_path(dir: &DirObject) -> (r: FsPath)
    ensures
        r@ == index_view(dir.render_path@),
{
    dir.render_path.join_name(INDEX_FILE_NAME)
}

/// One line of an index page: a child's source path, and its output where
/// it has one.
#[derive(Debug, Clone, PartialEq, Eq)]
pub struct IndexEntry {
    pub source: FsPath,
    pub render_path: Option<FsPath>,
}

/// The output an index links to for `o`: a directory's index page, a
/// document's rendered page, nothing for anything else.
pub open spec fn link_view(o: Object) -> Option<PathView> {
    match o {
        Object::Dir(d) => Some(index_view(d.render_path@)),
        Object::SourceFile(f) => Some(f.render_path@),
        _ => None,
    }
}

impl IndexEntry {
    /// The entry for child `o`.
    pub fn from_object(o: &Object) -> (r: IndexEntry)
        ensures
            r.source@ == o.spec_path()@,
            match link_view(*o) {
                Some(v) => r.render_path matches Some(p) && p@ == v,
                None => r.render_path is None,
            },
    {
        let source = o.path().duplicate();
        let render_path = match o {
            Object::Dir(d) => Some(render_path(d)),
            Object::SourceFile(f) => Some(f.render_path.duplicate()),
            _ => None,
        };
        IndexEntry { source, render_path }
    }

    /// Where the entry links: its output, or its source where it has none.
    pub fn path(&self) -> (r: &FsPath)
        ensures
            match self.render_path {
                Some(p) => *r == p,
                None => *r == self.source,
            },
    {
        match &self.render_path {
            Some(p) => p,
            None => &self.source,
        }
    }
}

/// The entries of `dir`'s index page, one per child, in order.
pub fn entries(dir: &DirObject) -> (r: Vec<IndexEntry>)
    ensures
        r@.len() == dir.children@.len(),
        forall|i: int|
            #![trigger r@[i]]
            0 <= i < r@.len() ==> r@[i].source@ == dir.children@[i].spec_path()@ && match link_view(
                dir.children@[i],
            ) {
                Some(v) => r@[i].render_path matches Some(p) && p@ == v,
                None => r@[i].render_path is None,
            },
{
    let mut r: Vec<IndexEntry> = Vec::new();
    let n = dir.children.len();
    let mut i: usize = 0;
    while i < n
        invariant
            n == dir.children@.len(),
            i <= n,
            r@.len() == i,
            forall|j: int|
                #![trigger r@[j]]
                0 <= j < i ==> r@[j].source@ == dir.children@[j].spec_path()@ && match link_view(
                    dir.children@[j],
                ) {
                    Some(v) => r@[j].render_path matches Some(p) && p@ == v,
                    None => r@[j].render_path is None,
                },
        decreases n - i,
    {
        let e = IndexEntry::from_object(&dir.children[i]);
        r.push(e);
        i += 1;
    }
    r
}

} // verus!
