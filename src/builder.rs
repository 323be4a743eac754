//! Building the source tree breadth-first: the builder names the next
//! directory to list and takes its listing in turn.
use crate::error::SyncError;
use crate::hash::{content_writes, digest};
use crate::object::{
    identity, is_source_path, page_view, render_view, structural_hash, structural_writes,
    DirObject, EntryKind, LinkObject, Object,
};
use crate::path::FsPath;
use crate::tree::{
    copy_pos, dir_in, extend_positions, lemma_node_at_push, merkle_ok, node_at, same_but_merkle,
    structure_ok, DirTree,
};
use vstd::prelude::*;

verus! {

/// `b` is `a` with children appended to some of its directories.
pub open spec fn grows(a: DirObject, b: DirObject) -> bool
    decreases a,
{
    &&& a.path == b.path
    &&& a.render_path == b.render_path
    &&& a.merkle_hash == b.merkle_hash
    &&& a.children@.len() <= b.children@.len()
    &&& forall|i: int|
        #![trigger a.children@[i]]
        0 <= i < a.children@.len() ==> match (a.children@[i], b.children@[i]) {
            (Object::Dir(x), Object::Dir(y)) => grows(x, y),
            (x, y) => x == y && !(x is Dir),
        }
}

/// Every directory among `children` is a consistent tree of its own.
pub open spec fn children_ok(children: Seq<Object>) -> bool {
    forall|i: int|
        #![trigger children[i]]
        0 <= i < children.len() ==> match children[i] {
            Object::Dir(c) => structure_ok(c),
            _ => true,
        }
}

/// An entry of a directory listing: its path, what it is, and, for a
/// document to render, its bytes.
pub struct Entry {
    pub path: FsPath,
    pub kind: EntryKind,
    pub content: Vec<u8>,
}

/// `o` is what the entry `e` classifies as, below the given roots.
pub open spec fn entry_object(e: Entry, o: Object, source_root: FsPath, render_root: FsPath) -> bool {
    match o {
        Object::SourceFile(s) => e.kind == EntryKind::File && is_source_path(e.path@) && s.path@ == e.path@
            && page_view(e.path@, source_root@, render_root@) == Some(s.render_path@)
            && s.contents_hash.0 == digest(content_writes(e.content@)),
        Object::File(f) => e.kind == EntryKind::File && !is_source_path(e.path@) && f.path@ == e.path@,
        Object::Dir(d) => e.kind == EntryKind::Dir && d.path@ == e.path@ && render_view(
            e.path@,
            source_root@,
            render_root@,
        ) == Some(d.render_path@) && d.children@.len() == 0 && d.children_hash.0 == structural_hash(
            d.children@,
        ) && d.merkle_hash.0 == 0,
        Object::Symlink(l) => e.kind == EntryKind::Symlink && l.path@ == e.path@,
    }
}

/// Whether entry `e` yields a node: it is a file, a directory or a link,
/// and where it needs an output path, it lies below the source root.
pub open spec fn accepted(e: Entry, source_root: FsPath, render_root: FsPath) -> bool {
    match e.kind {
        EntryKind::Other => false,
        EntryKind::Symlink => true,
        EntryKind::File => !is_source_path(e.path@) || render_view(e.path@, source_root@, render_root@) is Some,
        EntryKind::Dir => render_view(e.path@, source_root@, render_root@) is Some,
    }
}

/// Positions, among the first `n` entries, of those that yield a node.
pub open spec fn accepted_upto(entries: Seq<Entry>, n: nat, source_root: FsPath, render_root: FsPath) -> Seq<int>
    decreases n,
{
    if n == 0 {
        seq![]
    } else {
        let rest = accepted_upto(entries, (n - 1) as nat, source_root, render_root);
        if accepted(entries[n - 1], source_root, render_root) {
            rest.push(n - 1)
        } else {
            rest
        }
    }
}

/// `objs` are the nodes that the first `n` entries yield, in listing order.
pub open spec fn from_entries_upto(
    entries: Seq<Entry>,
    n: nat,
    objs: Seq<Object>,
    source_root: FsPath,
    render_root: FsPath,
) -> bool {
    let pos = accepted_upto(entries, n, source_root, render_root);
    &&& objs.len() == pos.len()
    &&& forall|j: int|
        #![trigger objs[j]]
        0 <= j < objs.len() ==> entry_object(entries[pos[j]], objs[j], source_root, render_root)
}

/// `objs` are the nodes that `entries` yield, in listing order: one for
/// each entry that is a file, a directory or a link below the source root.
pub open spec fn from_entries(entries: Seq<Entry>, objs: Seq<Object>, source_root: FsPath, render_root: FsPath) -> bool {
    from_entries_upto(entries, entries.len(), objs, source_root, render_root)
}

/// Builds the tree breadth-first: it names the next directory to list, and
/// takes that directory's listing in turn.
pub struct TreeBuilder {
    root: DirObject,
    source_root: FsPath,
    render_root: FsPath,
    queue: Vec<Vec<usize>>,
    head: usize,
}

/// Positions, from `start` on, of the directories among `children`.
pub open spec fn subdirs_from(children: Seq<Object>, start: int) -> Seq<usize>
    decreases children.len(),
{
    if children.len() == 0 || children.len() <= start {
        seq![]
    } else {
        let rest = subdirs_from(children.drop_last(), start);
        match children.last() {
            Object::Dir(_) => rest.push((children.len() - 1) as usize),
            _ => rest,
        }
    }
}

/// Every tree grows from itself.
proof fn lemma_grows_refl(a: DirObject)
    ensures
        grows(a, a),
    decreases a,
{
    assert forall|i: int| 0 <= i < a.children@.len() implies match (
        #[trigger] a.children@[i],
        a.children@[i],
    ) {
        (Object::Dir(x), Object::Dir(y)) => grows(x, y),
        (x, y) => x == y && !(x is Dir),
    } by {
        if let Object::Dir(x) = a.children@[i] {
            assert(decreases_to!(a.children => a.children@[i]));
            lemma_grows_refl(x);
        }
    }
}

/// A tree that differs from a consistent one only in merkle hashes is consistent.
proof fn lemma_same_but_merkle_structure(a: DirObject, b: DirObject)
    requires
        same_but_merkle(a, b),
        structure_ok(a),
    ensures
        structure_ok(b),
    decreases a,
{
    assert forall|i: int| 0 <= i < a.children@.len() implies identity(#[trigger] a.children@[i])
        == identity(b.children@[i]) by {
        assert(match (a.children@[i], b.children@[i]) {
            (Object::Dir(x), Object::Dir(y)) => same_but_merkle(x, y),
            (x, y) => x == y && !(x is Dir),
        });
        match (a.children@[i], b.children@[i]) {
            (Object::Dir(x), Object::Dir(y)) => {
                assert(x.path == y.path);
            },
            _ => {},
        }
    }
    lemma_same_identities(a.children@, b.children@);
    assert forall|i: int| 0 <= i < b.children@.len() implies match #[trigger] b.children@[i] {
        Object::Dir(c) => structure_ok(c),
        _ => true,
    } by {
        match (a.children@[i], b.children@[i]) {
            (Object::Dir(x), Object::Dir(y)) => {
                assert(decreases_to!(a.children => a.children@[i]));
                lemma_same_but_merkle_structure(x, y);
            },
            _ => {},
        }
    }
}

/// Growing a tree keeps every directory that was reachable.
proof fn lemma_grows_node_at(a: DirObject, b: DirObject, q: Seq<usize>)
    requires
        grows(a, b),
        node_at(a, q) is Some,
    ensures
        node_at(b, q) is Some,
        grows(node_at(a, q)->0, node_at(b, q)->0),
    decreases q.len(),
{
    if q.len() > 0 {
        let i = q[0] as int;
        assert(a.children@[i] is Dir);
        match (a.children@[i], b.children@[i]) {
            (Object::Dir(x), Object::Dir(y)) => {
                lemma_grows_node_at(x, y, q.drop_first());
            },
            _ => {},
        }
    }
}

/// The structural hash looks at each child's kind and name only.
proof fn lemma_same_identities(a: Seq<Object>, b: Seq<Object>)
    requires
        a.len() == b.len(),
        forall|i: int| 0 <= i < a.len() ==> identity(#[trigger] a[i]) == identity(b[i]),
    ensures
        structural_hash(a) == structural_hash(b),
{
    assert(structural_writes(a) =~= structural_writes(b));
}

impl TreeBuilder {
    /// The tree built so far.
    pub closed spec fn tree(&self) -> DirObject {
        self.root
    }

    /// The positions of the directories still to list, in order.
    pub closed spec fn pending(&self) -> Seq<Seq<usize>> {
        self.queue@.subrange(self.head as int, self.queue@.len() as int).map_values(
            |v: Vec<usize>| v@,
        )
    }

    /// The roots that output paths are computed from.
    pub closed spec fn roots(&self) -> (FsPath, FsPath) {
        (self.source_root, self.render_root)
    }

    /// The tree is consistent and every directory still to list is in it.
    pub closed spec fn wf(&self) -> bool {
        &&& self.head <= self.queue@.len()
        &&& structure_ok(self.root)
        &&& forall|j: int|
            #![trigger self.queue@[j]]
            self.head <= j < self.queue@.len() ==> node_at(self.root, self.queue@[j]@) is Some
    }

    /// Classifies the entries of one listing, in order. Entries that are
    /// neither file, directory nor link, and paths outside the source root,
    /// are left out.
    pub fn classify(&self, entries: &Vec<Entry>) -> (r: Vec<Object>)
        ensures
            children_ok(r@),
            from_entries(entries@, r@, self.roots().0, self.roots().1),
    {
        let mut r: Vec<Object> = Vec::new();
        let mut i: usize = 0;
        while i < entries.len()
            invariant
                i <= entries@.len(),
                children_ok(r@),
                from_entries_upto(entries@, i as nat, r@, self.source_root, self.render_root),
            decreases entries@.len() - i,
        {
            let e = &entries[i];
            let path = e.path.duplicate();
            let ghost ev = entries@[i as int];
            let ghost pos = accepted_upto(entries@, i as nat, self.source_root, self.render_root);
            match Object::new(path, e.kind, e.content.as_slice(), &self.source_root, &self.render_root) {
                Ok(o) => {
                    proof {
                        assert(accepted(ev, self.source_root, self.render_root));
                        assert(entry_object(ev, o, self.source_root, self.render_root));
                        if o is Dir {
                            assert(structure_ok(o->Dir_0));
                        }
                    }
                    let ghost before = r@;
                    r.push(o);
                    proof {
                        let npos = accepted_upto(entries@, (i + 1) as nat, self.source_root, self.render_root);
                        assert(npos == pos.push(i as int));
                        assert forall|j: int| 0 <= j < r@.len() implies entry_object(
                            entries@[npos[j]],
                            #[trigger] r@[j],
                            self.source_root,
                            self.render_root,
                        ) by {
                            if j < before.len() {
                                assert(r@[j] == before[j]);
                                assert(npos[j] == pos[j]);
                            } else {
                                assert(npos[j] == i as int);
                            }
                        }
                        assert forall|j: int| 0 <= j < r@.len() implies match #[trigger] r@[j] {
                            Object::Dir(c) => structure_ok(c),
                            _ => true,
                        } by {
                            if j < before.len() {
                                assert(r@[j] == before[j]);
                            }
                        }
                    }
                },
                Err(_) => {
                    proof {
                        assert(!accepted(ev, self.source_root, self.render_root));
                        let npos = accepted_upto(entries@, (i + 1) as nat, self.source_root, self.render_root);
                        assert(npos == pos);
                    }
                },
            }
            i += 1;
        }
        r
    }

    /// Takes the listing of the next directory: classifies its entries,
    /// appends them as that directory's children in listing order, and
    /// queues the new subdirectories.
    pub fn attach(&mut self, entries: &Vec<Entry>)
        requires
            old(self).wf(),
            old(self).pending().len() > 0,
        ensures
            final(self).wf(),
            final(self).roots() == old(self).roots(),
            grows(old(self).tree(), final(self).tree()),
            ({
                let pos = old(self).pending()[0];
                let before = node_at(old(self).tree(), pos)->0;
                node_at(final(self).tree(), pos) matches Some(n) && n.path == before.path
                    && before.children@.len() <= n.children@.len()
                    && n.children@.subrange(0, before.children@.len() as int) == before.children@
                    && from_entries(
                    entries@,
                    n.children@.subrange(before.children@.len() as int, n.children@.len() as int),
                    old(self).roots().0,
                    old(self).roots().1,
                ) && final(self).pending() == old(self).pending().drop_first()
                    + extend_positions(pos, subdirs_from(n.children@, before.children@.len() as int))
            }),
    {
        let ghost old_pending = self.pending();
        let ghost old_root = self.root;
        assert(old_pending.len() == self.queue@.len() - self.head);
        assert(self.head < self.queue.len());
        let pos = copy_pos(&self.queue[self.head]);
        assert(node_at(self.root, pos@) is Some);
        let ghost before = node_at(self.root, pos@)->0;
        let start = match dir_in(&self.root, &pos) {
            Some(d) => d.children.len(),
            None => 0,
        };
        let extra = self.classify(entries);
        self.head = self.head + 1;
        assert(pos@.subrange(0, pos@.len() as int) =~= pos@);
        let ok = extend_at(&mut self.root, &pos, 0, extra);
        assert(ok);
        let ghost n = node_at(self.root, pos@)->0;
        proof {
            lemma_grows_node_at(old_root, self.root, pos@);
            assert(n.children@.subrange(0, before.children@.len() as int) =~= before.children@);
            assert forall|q: int| self.head <= q < self.queue@.len() implies node_at(
                self.root,
                #[trigger] self.queue@[q]@,
            ) is Some by {
                lemma_grows_node_at(old_root, self.root, self.queue@[q]@);
            }
            assert(self.pending() =~= old_pending.drop_first());
        }
        let ghost base = self.pending();
        let ghost grown = self.root;
        let mut j: usize = start;
        let len = match dir_in(&self.root, &pos) {
            Some(d) => d.children.len(),
            None => start,
        };
        assert(subdirs_from(n.children@.subrange(0, start as int), start as int) =~= seq![]);
        while j < len
            invariant
                start <= j <= len,
                self.root == grown,
                self.source_root == old(self).source_root,
                self.render_root == old(self).render_root,
                len == n.children@.len(),
                start == before.children@.len(),
                node_at(self.root, pos@) == Some(n),
                self.head <= self.queue@.len(),
                structure_ok(self.root),
                forall|q: int|
                    #![trigger self.queue@[q]]
                    self.head <= q < self.queue@.len() ==> node_at(self.root, self.queue@[q]@) is Some,
                self.pending() == base + extend_positions(
                    pos@,
                    subdirs_from(n.children@.subrange(0, j as int), start as int),
                ),
            decreases len - j,
        {
            let ghost pre = n.children@.subrange(0, j + 1);
            assert(pre.drop_last() =~= n.children@.subrange(0, j as int));
            let is_dir = match dir_in(&self.root, &pos) {
                Some(d) => match &d.children[j] {
                    Object::Dir(_) => true,
                    _ => false,
                },
                None => false,
            };
            if is_dir {
                let mut p = copy_pos(&pos);
                p.push(j);
                proof {
                    lemma_node_at_push(self.root, pos@, j);
                }
                let ghost before_q = self.queue@;
                let ghost before_pending = self.pending();
                let ghost pv = p@;
                self.queue.push(p);
                proof {
                    assert(self.queue@.subrange(self.head as int, self.queue@.len() as int) =~= before_q.subrange(
                        self.head as int,
                        before_q.len() as int,
                    ).push(self.queue@.last()));
                    assert(self.pending() =~= before_pending.push(pv));
                    assert(forall|q: int| self.head <= q < before_q.len() ==> self.queue@[q] == before_q[q]);
                }
            }
            j += 1;
        }
        assert(n.children@.subrange(0, len as int) =~= n.children@);
    }

    /// Whether every directory has been listed.
    pub fn is_done(&self) -> (r: bool)
        requires
            self.wf(),
        ensures
            r == (self.pending().len() == 0),
    {
        self.head >= self.queue.len()
    }

    /// The finished tree, with the merkle hash of every directory set.
    pub fn finish(self) -> (r: DirTree)
        requires
            self.wf(),
        ensures
            structure_ok(r.root),
            merkle_ok(r.root),
            same_but_merkle(self.tree(), r.root),
    {
        let mut root = self.root;
        DirTree::compute_merkle_hash(&mut root);
        proof {
            lemma_same_but_merkle_structure(self.root, root);
        }
        DirTree { root }
    }

    /// The source path of the next directory to list.
    pub fn next_dir(&self) -> (r: Option<&FsPath>)
        requires
            self.wf(),
        ensures
            r is None <==> self.pending().len() == 0,
            r matches Some(p) ==> (node_at(self.tree(), self.pending()[0]) matches Some(d) && *p
                == d.path),
    {
        if self.head < self.queue.len() {
            assert(self.pending()[0] == self.queue@[self.head as int]@);
            match dir_in(&self.root, &self.queue[self.head]) {
                Some(d) => Some(&d.path),
                None => None,
            }
        } else {
            None
        }
    }
}

/// Appends `extra` to the children of the directory at `pos[k..]` below `d`,
/// if there is one there.
fn extend_at(d: &mut DirObject, pos: &Vec<usize>, k: usize, extra: Vec<Object>) -> (ok: bool)
    requires
        k <= pos@.len(),
    ensures
        grows(*old(d), *final(d)),
        structure_ok(*old(d)) && children_ok(extra@) ==> structure_ok(*final(d)),
        ok == (node_at(*old(d), pos@.subrange(k as int, pos@.len() as int)) is Some),
        ok ==> (node_at(*final(d), pos@.subrange(k as int, pos@.len() as int)) matches Some(n)
            && n.children@ == node_at(*old(d), pos@.subrange(k as int, pos@.len() as int))->0.children@
            + extra@),
    decreases pos@.len() - k,
{
    let ghost sub = pos@.subrange(k as int, pos@.len() as int);
    if k == pos.len() {
        assert(sub =~= Seq::<usize>::empty());
        let ghost old_children = d.children@;
        let ghost extra_v = extra@;
        d.extend(extra);
        proof {
            assert forall|i: int| 0 <= i < old(d).children@.len() implies match (
                #[trigger] old(d).children@[i],
                d.children@[i],
            ) {
                (Object::Dir(x), Object::Dir(y)) => grows(x, y),
                (x, y) => x == y && !(x is Dir),
            } by {
                assert(d.children@[i] == old_children[i]);
                if let Object::Dir(x) = old_children[i] {
                    lemma_grows_refl(x);
                }
            }
            if structure_ok(*old(d)) && children_ok(extra_v) {
                assert forall|i: int| 0 <= i < d.children@.len() implies match #[trigger] d.children@[i] {
                    Object::Dir(c) => structure_ok(c),
                    _ => true,
                } by {
                    if i < old_children.len() {
                        assert(d.children@[i] == old_children[i]);
                    } else {
                        assert(d.children@[i] == extra_v[i - old_children.len()]);
                    }
                }
            }
        }
        return true;
    }
    assert(sub[0] == pos@[k as int]);
    assert(sub.drop_first() =~= pos@.subrange(k + 1, pos@.len() as int));
    let i = pos[k];
    if i >= d.children.len() {
        proof {
            lemma_grows_refl(*d);
        }
        return false;
    }
    let ghost start = d.children@;
    let mut slot = Object::Symlink(LinkObject::new(FsPath::new()));
    d.children.set_and_swap(i, &mut slot);
    let (back, ok) = match slot {
        Object::Dir(mut c) => {
            proof {
                assert(old(d).children@[i as int] == Object::Dir(c));
                assert(decreases_to!(old(d).children => old(d).children@[i as int]));
            }
            let ok = extend_at(&mut c, pos, k + 1, extra);
            (Object::Dir(c), ok)
        },
        other => (other, false),
    };
    let mut back = back;
    d.children.set_and_swap(i, &mut back);
    proof {
        let c2 = d.children@;
        assert(c2.len() == start.len());
        assert forall|j: int| 0 <= j < start.len() && j != i implies c2[j] == start[j] by {}
        assert forall|j: int| 0 <= j < start.len() implies match (#[trigger] start[j], c2[j]) {
            (Object::Dir(x), Object::Dir(y)) => grows(x, y),
            (x, y) => x == y && !(x is Dir),
        } by {
            if j != i {
                if let Object::Dir(x) = start[j] {
                    lemma_grows_refl(x);
                }
            }
        }
        assert forall|j: int| 0 <= j < start.len() implies identity(#[trigger] start[j]) == identity(c2[j]) by {
            if j != i {
            } else {
                match (start[j], c2[j]) {
                    (Object::Dir(x), Object::Dir(y)) => {},
                    _ => {},
                }
            }
        }
        lemma_same_identities(start, c2);
        if structure_ok(*old(d)) && children_ok(extra@) {
            assert forall|j: int| 0 <= j < c2.len() implies match #[trigger] c2[j] {
                Object::Dir(c) => structure_ok(c),
                _ => true,
            } by {
                assert(match start[j] {
                    Object::Dir(c) => structure_ok(c),
                    _ => true,
                });
            }
        }
    }
    ok
}

impl DirTree {
    /// Starts a tree at the source root `root`, of kind `kind`, whose output
    /// goes to `render_root`. Fails unless `root` is a directory.
    pub fn with_root(root: FsPath, kind: EntryKind, render_root: &FsPath) -> (r: Result<TreeBuilder, SyncError>)
        ensures
            kind == EntryKind::Dir ==> (r matches Ok(b) && b.wf() && b.roots().0@ == root@
                && b.roots().1@ == render_root@ && b.tree().path == root
                && b.tree().render_path@ == render_root@ && b.tree().children@.len() == 0
                && b.pending() == seq![Seq::<usize>::empty()]),
            kind == EntryKind::Other ==> r == Err::<TreeBuilder, SyncError>(SyncError::Unclassifiable),
            kind == EntryKind::File || kind == EntryKind::Symlink ==> r == Err::<TreeBuilder, SyncError>(
                SyncError::InvalidInput,
            ),
    {
        match kind {
            EntryKind::Dir => {},
            EntryKind::Other => return Err(SyncError::Unclassifiable),
            _ => return Err(SyncError::InvalidInput),
        }
        let source_root = root.duplicate();
        let out = render_root.duplicate();
        assert(root@.parts.subrange(0, root@.parts.len() as int) =~= root@.parts);
        assert(render_root@.parts + root@.parts.subrange(root@.parts.len() as int, root@.parts.len() as int)
            =~= render_root@.parts);
        let dir = match DirObject::with_source(root, &source_root, render_root) {
            Ok(d) => d,
            Err(e) => return Err(e),
        };
        let mut queue: Vec<Vec<usize>> = Vec::new();
        queue.push(Vec::new());
        let b = TreeBuilder { root: dir, source_root, render_root: out, queue, head: 0 };
        assert(b.pending() =~= seq![Seq::<usize>::empty()]);
        assert(node_at(b.root, b.queue@[0]@) == Some(b.root));
        assert(structure_ok(b.root));
        Ok(b)
    }

}

} // verus!
