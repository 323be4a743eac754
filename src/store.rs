//! The state record kept beside each rendered directory, and the
//! comparisons that the walk makes against it.
use crate::hash::{DirChildrenHash, MerkleHash, SourceContentsHash};
use crate::object::{DirObject, Object};
use crate::path::{join_view, name_bytes, parse_bytes, FsPath, PathView};
use vstd::prelude::*;
use vstd::string::StringSliceAdditionalSpecFns;

verus! {

/// Name of the state record inside a directory's output location.
pub const DIR_HASH_FILE_NAME: &'static str = ".carbon-hash-store.json";

/// The last-seen content hash of one document, keyed by its file name.
#[derive(Debug, Clone, PartialEq, Eq)]
pub struct SourceEntry {
    pub name: Vec<u8>,
    pub hash: SourceContentsHash,
}

/// The hashes of one directory as they were when it was last visited.
#[derive(Debug, Clone, PartialEq, Eq)]
pub struct HashStore {
    pub merkle: MerkleHash,
    pub dir: DirChildrenHash,
    pub source: Vec<SourceEntry>,
}

/// Abstract value of a state record.
pub struct RecordView {
    pub merkle: u64,
    pub dir: u64,
    pub source: Seq<(Seq<u8>, u64)>,
}

impl View for HashStore {
    type V = RecordView;

    open spec fn view(&self) -> RecordView {
        RecordView {
            merkle: self.merkle.0,
            dir: self.dir.0,
            source: self.source@.map_values(|e: SourceEntry| (e.name@, e.hash.0)),
        }
    }
}

/// The (name, content hash) pairs of the documents among `children`, in order.
pub open spec fn source_entries(children: Seq<Object>) -> Seq<(Seq<u8>, u64)>
    decreases children.len(),
{
    if children.len() == 0 {
        seq![]
    } else {
        let rest = source_entries(children.drop_last());
        match children.last() {
            Object::SourceFile(f) => rest.push((name_bytes(f.path@), f.contents_hash.0)),
            _ => rest,
        }
    }
}

/// The record that describes `d` as it is now.
pub open spec fn record_of(d: DirObject) -> RecordView {
    RecordView { merkle: d.merkle_hash.0, dir: d.children_hash.0, source: source_entries(d.children@) }
}

/// The hash recorded for the document named `name`: the first entry of that name.
pub open spec fn recorded_hash(entries: Seq<(Seq<u8>, u64)>, name: Seq<u8>) -> Option<u64>
    decreases entries.len(),
{
    if entries.len() == 0 {
        None
    } else if entries[0].0 == name {
        Some(entries[0].1)
    } else {
        recorded_hash(entries.drop_first(), name)
    }
}

/// Whether a record exists and holds merkle hash `h`.
pub open spec fn merkle_matches(rec: Option<RecordView>, h: u64) -> bool {
    rec matches Some(r) && r.merkle == h
}

/// Whether a record exists and holds structural hash `h`.
pub open spec fn structural_matches(rec: Option<RecordView>, h: u64) -> bool {
    rec matches Some(r) && r.dir == h
}

/// Whether a record exists and holds content hash `h` for the document named `name`.
pub open spec fn content_matches(rec: Option<RecordView>, name: Seq<u8>, h: u64) -> bool {
    rec matches Some(r) && recorded_hash(r.source, name) == Some(h)
}

/// Where the state record of the directory rendered at `dir` lives.
pub open spec fn store_view(dir: PathView) -> PathView {
    join_view(dir, parse_bytes(DIR_HASH_FILE_NAME.spec_bytes()))
}

/// No two entries share a name.
pub open spec fn names_distinct(entries: Seq<(Seq<u8>, u64)>) -> bool {
    forall|i: int, j: int|
        #![trigger entries[i], entries[j]]
        0 <= i < j < entries.len() ==> entries[i].0 != entries[j].0
}

/// No two documents among `children` share a name.
pub open spec fn doc_names_distinct(children: Seq<Object>) -> bool {
    forall|i: int, j: int|
        #![trigger children[i], children[j]]
        0 <= i < j < children.len() && children[i] is SourceFile && children[j] is SourceFile
            ==> name_bytes(children[i]->SourceFile_0.path@) != name_bytes(children[j]->SourceFile_0.path@)
}

/// Each entry is named after a document among `children`.
proof fn lemma_entry_names(children: Seq<Object>, k: int)
    requires
        0 <= k < source_entries(children).len(),
    ensures
        exists|j: int|
            0 <= j < children.len() && #[trigger] children[j] is SourceFile && name_bytes(
                children[j]->SourceFile_0.path@,
            ) == source_entries(children)[k].0,
    decreases children.len(),
{
    let rest = children.drop_last();
    let r = source_entries(rest);
    if k < r.len() {
        lemma_entry_names(rest, k);
        let j = choose|j: int|
            0 <= j < rest.len() && #[trigger] rest[j] is SourceFile && name_bytes(rest[j]->SourceFile_0.path@)
                == r[k].0;
        assert(children[j] == rest[j]);
        assert(source_entries(children)[k] == r[k]);
    } else {
        let j = children.len() - 1;
        assert(children[j] is SourceFile);
    }
}

/// Documents with distinct names give entries with distinct names.
proof fn lemma_entries_distinct(children: Seq<Object>)
    requires
        doc_names_distinct(children),
    ensures
        names_distinct(source_entries(children)),
    decreases children.len(),
{
    if children.len() > 0 {
        let rest = children.drop_last();
        assert(doc_names_distinct(rest)) by {
            assert forall|i: int, j: int|
                0 <= i < j < rest.len() && #[trigger] rest[i] is SourceFile && #[trigger] rest[j] is SourceFile
                implies name_bytes(rest[i]->SourceFile_0.path@) != name_bytes(rest[j]->SourceFile_0.path@) by {
                assert(rest[i] == children[i]);
                assert(rest[j] == children[j]);
            }
        }
        lemma_entries_distinct(rest);
        let r = source_entries(rest);
        if let Object::SourceFile(f) = children.last() {
            let e = source_entries(children);
            assert(e == r.push((name_bytes(f.path@), f.contents_hash.0)));
            assert forall|i: int, j: int| 0 <= i < j < e.len() implies #[trigger] e[i].0 != #[trigger] e[j].0 by {
                if j == e.len() - 1 {
                    lemma_entry_names(rest, i);
                    let m = choose|m: int|
                        0 <= m < rest.len() && #[trigger] rest[m] is SourceFile && name_bytes(
                            rest[m]->SourceFile_0.path@,
                        ) == r[i].0;
                    assert(rest[m] == children[m]);
                    assert(children[children.len() - 1] == children.last());
                } else {
                    assert(e[i] == r[i] && e[j] == r[j]);
                }
            }
        }
    }
}

impl HashStore {
    /// No two entries share a name.
    pub open spec fn wf(&self) -> bool {
        names_distinct(self@.source)
    }

    /// Where the state record of the directory rendered at `dir_path` lives.
    pub fn store_path(dir_path: &FsPath) -> (r: FsPath)
        ensures
            r@ == store_view(dir_path@),
    {
        dir_path.join_name(DIR_HASH_FILE_NAME)
    }

    /// The record that describes `dir` as it is now.
    pub fn from_dir(dir: &DirObject) -> (r: HashStore)
        ensures
            r@ == record_of(*dir),
            doc_names_distinct(dir.children@) ==> r.wf(),
    {
        let mut source: Vec<SourceEntry> = Vec::new();
        let n = dir.children.len();
        let mut i: usize = 0;
        while i < n
            invariant
                n == dir.children@.len(),
                i <= n,
                source@.map_values(|e: SourceEntry| (e.name@, e.hash.0)) == source_entries(
                    dir.children@.subrange(0, i as int),
                ),
            decreases n - i,
        {
            let ghost before = source@;
            if let Object::SourceFile(f) = &dir.children[i] {
                let name = f.path.file_name_bytes();
                source.push(SourceEntry { name, hash: f.contents_hash });
                assert(source@.map_values(|e: SourceEntry| (e.name@, e.hash.0)) =~= before.map_values(
                    |e: SourceEntry| (e.name@, e.hash.0),
                ).push((name_bytes(f.path@), f.contents_hash.0)));
            }
            assert(dir.children@.subrange(0, i + 1).drop_last() =~= dir.children@.subrange(0, i as int));
            i += 1;
        }
        assert(dir.children@.subrange(0, n as int) =~= dir.children@);
        let r = HashStore { merkle: dir.merkle_hash, dir: dir.children_hash, source };
        assert(r@.source == source_entries(dir.children@));
        proof {
            if doc_names_distinct(dir.children@) {
                lemma_entries_distinct(dir.children@);
            }
        }
        r
    }
}

/// The state record of a directory as read back, if there was one.
pub struct HashStoreRw {
    pub store: Option<HashStore>,
}

impl View for HashStoreRw {
    type V = Option<RecordView>;

    open spec fn view(&self) -> Option<RecordView> {
        match self.store {
            Some(s) => Some(s@),
            None => None,
        }
    }
}

impl From<Option<HashStore>> for HashStoreRw {
    fn from(store: Option<HashStore>) -> Self {
        HashStoreRw { store }
    }
}

impl vstd::std_specs::convert::FromSpecImpl<Option<HashStore>> for HashStoreRw {
    open spec fn obeys_from_spec() -> bool {
        true
    }

    open spec fn from_spec(v: Option<HashStore>) -> Self {
        HashStoreRw { store: v }
    }
}

impl HashStoreRw {
    /// Whether the record exists and holds merkle hash `hash`.
    pub fn merkle_hash_eq(&self, hash: &MerkleHash) -> (r: bool)
        ensures
            r == merkle_matches(self@, hash.0),
    {
        match &self.store {
            Some(store) => store.merkle.0 == hash.0,
            None => false,
        }
    }

    /// Whether the record exists and holds structural hash `hash`.
    pub fn dir_hash_eq(&self, hash: &DirChildrenHash) -> (r: bool)
        ensures
            r == structural_matches(self@, hash.0),
    {
        match &self.store {
            Some(store) => store.dir.0 == hash.0,
            None => false,
        }
    }

    /// Whether the record exists and holds content hash `hash` for the
    /// document named `name` (its path relative to the directory).
    pub fn source_hash_eq(&self, name: &Vec<u8>, hash: &SourceContentsHash) -> (r: bool)
        ensures
            r == content_matches(self@, name@, hash.0),
    {
        match &self.store {
            Some(store) => match lookup(&store.source, name) {
                Some(h) => h.0 == hash.0,
                None => false,
            },
            None => false,
        }
    }
}

/// The hash of the first entry named `name`.
fn lookup(entries: &Vec<SourceEntry>, name: &Vec<u8>) -> (r: Option<SourceContentsHash>)
    ensures
        match recorded_hash(entries@.map_values(|e: SourceEntry| (e.name@, e.hash.0)), name@) {
            Some(h) => r matches Some(x) && x.0 == h,
            None => r is None,
        },
{
    let ghost all = entries@.map_values(|e: SourceEntry| (e.name@, e.hash.0));
    let mut i: usize = 0;
    assert(all.subrange(0, all.len() as int) =~= all);
    while i < entries.len()
        invariant
            i <= entries@.len(),
            all == entries@.map_values(|e: SourceEntry| (e.name@, e.hash.0)),
            recorded_hash(all, name@) == recorded_hash(all.subrange(i as int, all.len() as int), name@),
        decreases entries@.len() - i,
    {
        let ghost rest = all.subrange(i as int, all.len() as int);
        if crate::path::bytes_eq(&entries[i].name, name) {
            return Some(entries[i].hash);
        }
        assert(rest.drop_first() =~= all.subrange(i + 1, all.len() as int));
        i += 1;
    }
    None
}

} // verus!
