//! The tree of source nodes as a whole: its merkle hashes, and the walk
//! that decides what to rebuild.
use crate::hash::{digest, word_bytes, word_to_bytes, MerkleHash};
use crate::object::{structural_hash, DirObject, LinkObject, Object};
use crate::path::{name_bytes, FsPath};
use crate::store::{
    content_matches, merkle_matches, record_of, store_view, structural_matches, HashStore,
    HashStoreRw, RecordView,
};
use std::collections::hash_map::DefaultHasher;
use std::hash::Hasher;
use vstd::prelude::*;

verus! {

/// What a child adds to its directory's merkle hash: a directory its own
/// merkle hash, a document its content hash, anything else nothing.
pub open spec fn contribution(o: Object) -> Seq<Seq<u8>> {
    match o {
        Object::Dir(d) => seq![word_bytes(d.merkle_hash.0)],
        Object::SourceFile(f) => seq![word_bytes(f.contents_hash.0)],
        _ => seq![],
    }
}

/// The contributions of a list of children, in order.
pub open spec fn contributions(children: Seq<Object>) -> Seq<Seq<u8>>
    decreases children.len(),
{
    if children.len() == 0 {
        seq![]
    } else {
        contributions(children.drop_last()) + contribution(children.last())
    }
}

/// The writes whose digest is a directory's merkle hash: its structural
/// hash, then the contributions of its children.
pub open spec fn merkle_writes(d: DirObject) -> Seq<Seq<u8>> {
    seq![word_bytes(d.children_hash.0)] + contributions(d.children@)
}

/// Every directory in the tree holds the merkle hash of what is below it.
pub open spec fn merkle_ok(d: DirObject) -> bool
    decreases d,
{
    &&& d.merkle_hash.0 == digest(merkle_writes(d))
    &&& forall|i: int|
        #![trigger d.children@[i]]
        0 <= i < d.children@.len() ==> match d.children@[i] {
            Object::Dir(c) => merkle_ok(c),
            _ => true,
        }
}

/// Every directory in the tree holds the structural hash of its children.
pub open spec fn structure_ok(d: DirObject) -> bool
    decreases d,
{
    &&& d.children_hash.0 == structural_hash(d.children@)
    &&& forall|i: int|
        #![trigger d.children@[i]]
        0 <= i < d.children@.len() ==> match d.children@[i] {
            Object::Dir(c) => structure_ok(c),
            _ => true,
        }
}

/// The two trees agree in everything but their merkle hashes.
pub open spec fn same_but_merkle(a: DirObject, b: DirObject) -> bool
    decreases a,
{
    &&& a.path == b.path
    &&& a.render_path == b.render_path
    &&& a.children_hash == b.children_hash
    &&& a.children@.len() == b.children@.len()
    &&& forall|i: int|
        #![trigger a.children@[i]]
        0 <= i < a.children@.len() ==> match (a.children@[i], b.children@[i]) {
            (Object::Dir(x), Object::Dir(y)) => same_but_merkle(x, y),
            (x, y) => x == y && !(x is Dir),
        }
}

/// The source tree, rooted at the source root.
pub struct DirTree {
    pub root: DirObject,
}

/// The directory reached from `d` by following `pos`, each index naming a
/// child directory.
pub open spec fn node_at(d: DirObject, pos: Seq<usize>) -> Option<DirObject>
    decreases pos.len(),
{
    if pos.len() == 0 {
        Some(d)
    } else if pos[0] < d.children@.len() {
        match d.children@[pos[0] as int] {
            Object::Dir(c) => node_at(c, pos.drop_first()),
            _ => None,
        }
    } else {
        None
    }
}

/// Positions of the documents among `children` whose content hash the
/// record does not hold.
pub open spec fn stale_docs(children: Seq<Object>, rec: Option<RecordView>) -> Seq<usize>
    decreases children.len(),
{
    if children.len() == 0 {
        seq![]
    } else {
        let rest = stale_docs(children.drop_last(), rec);
        match children.last() {
            Object::SourceFile(f) => if content_matches(rec, name_bytes(f.path@), f.contents_hash.0) {
                rest
            } else {
                rest.push((children.len() - 1) as usize)
            },
            _ => rest,
        }
    }
}

/// Positions of the directories among `children`.
pub open spec fn subdirs(children: Seq<Object>) -> Seq<usize>
    decreases children.len(),
{
    if children.len() == 0 {
        seq![]
    } else {
        let rest = subdirs(children.drop_last());
        match children.last() {
            Object::Dir(_) => rest.push((children.len() - 1) as usize),
            _ => rest,
        }
    }
}

/// What the walk does in one directory.
pub struct WorkView {
    /// Children to render.
    pub to_render: Seq<usize>,
    /// Whether the index page is rebuilt.
    pub rebuild_index: bool,
    /// Children to visit next.
    pub descend: Seq<usize>,
}

/// The work for directory `d` given the record `rec` of its last visit:
/// nothing at all where the record holds its merkle hash (the whole subtree
/// is unchanged); otherwise the stale documents, the index where the
/// structural hash changed, and every subdirectory to look at in turn.
pub open spec fn visit(d: DirObject, rec: Option<RecordView>) -> Option<WorkView> {
    if merkle_matches(rec, d.merkle_hash.0) {
        None
    } else {
        Some(
            WorkView {
                to_render: stale_docs(d.children@, rec),
                rebuild_index: !structural_matches(rec, d.children_hash.0),
                descend: subdirs(d.children@),
            },
        )
    }
}

/// The positions below `pos` of the children at `idx`.
pub open spec fn extend_positions(pos: Seq<usize>, idx: Seq<usize>) -> Seq<Seq<usize>> {
    idx.map_values(|i: usize| pos.push(i))
}

/// One directory's work, as the walk hands it out.
pub struct Dir {
    /// Position of the directory in the tree.
    pub at: Vec<usize>,
    /// Positions among its children of the documents to render.
    pub to_render: Vec<usize>,
    /// Whether its index page is rebuilt.
    pub should_render_index: bool,
}

/// The directory at `pos` and every directory on the way to it exist, and
/// none of them matched its record: `recs[k]` is the record that the
/// directory at the first `k` steps of `pos` was compared with.
pub open spec fn visited_along(t: DirObject, pos: Seq<usize>, recs: Seq<Option<RecordView>>) -> bool {
    &&& recs.len() == pos.len() + 1
    &&& forall|k: int|
        #![trigger pos.subrange(0, k)]
        0 <= k <= pos.len() ==> node_at(t, pos.subrange(0, k)) is Some && !merkle_matches(
            recs[k],
            node_at(t, pos.subrange(0, k))->0.merkle_hash.0,
        )
}

/// A breadth-first walk over the directories that changed.
pub struct DirWalk {
    queue: Vec<Vec<usize>>,
    head: usize,
    /// For each queued position, the records its ancestors were compared with.
    chains: Ghost<Seq<Seq<Option<RecordView>>>>,
    /// Positions handed out so far.
    handed: Ghost<Set<Seq<usize>>>,
    /// Positions passed over so far, with everything below them.
    skipped: Ghost<Set<Seq<usize>>>,
}

/// Some position in `s` is `p` or lies above it.
pub open spec fn under(s: Set<Seq<usize>>, p: Seq<usize>) -> bool {
    exists|k: int| 0 <= k <= p.len() && #[trigger] s.contains(p.subrange(0, k))
}

/// Some position of `queue` from `head` on is `p` or lies above it.
pub open spec fn under_queue(queue: Seq<Seq<usize>>, head: int, p: Seq<usize>) -> bool {
    exists|m: int, k: int|
        #![trigger queue[m], p.subrange(0, k)]
        head <= m < queue.len() && 0 <= k <= p.len() && queue[m] == p.subrange(0, k)
}

/// Every directory of `t` is still to come, or lies below one that is, or
/// was handed out, or lies below one that was passed over.
pub open spec fn covers(
    t: DirObject,
    queue: Seq<Seq<usize>>,
    head: int,
    handed: Set<Seq<usize>>,
    skipped: Set<Seq<usize>>,
) -> bool {
    forall|p: Seq<usize>|
        #![trigger node_at(t, p)]
        node_at(t, p) is Some ==> under_queue(queue, head, p) || handed.contains(p) || under(skipped, p)
}

/// Every directory on the way to a directory exists.
pub proof fn lemma_node_at_prefix(t: DirObject, pos: Seq<usize>, k: int)
    requires
        node_at(t, pos) is Some,
        0 <= k <= pos.len(),
    ensures
        node_at(t, pos.subrange(0, k)) is Some,
    decreases pos.len(),
{
    if k > 0 {
        let c = t.children@[pos[0] as int];
        let d = c->Dir_0;
        lemma_node_at_prefix(d, pos.drop_first(), k - 1);
        let q = pos.subrange(0, k);
        assert(q[0] == pos[0]);
        assert(q.drop_first() =~= pos.drop_first().subrange(0, k - 1));
    }
}

/// The subdirectories are child directories.
proof fn lemma_subdirs_are_dirs(c: Seq<Object>, x: int)
    requires
        0 <= x < subdirs(c).len(),
        c.len() <= usize::MAX,
    ensures
        subdirs(c)[x] < c.len(),
        c[subdirs(c)[x] as int] is Dir,
    decreases c.len(),
{
    if c.len() > 0 {
        let rest = subdirs(c.drop_last());
        if x < rest.len() {
            lemma_subdirs_are_dirs(c.drop_last(), x);
            assert(subdirs(c)[x] == rest[x]);
            assert(c.drop_last()[rest[x] as int] == c[rest[x] as int]);
        } else {
            assert(c.last() is Dir);
            assert(subdirs(c) == rest.push((c.len() - 1) as usize));
            assert(subdirs(c)[x] == (c.len() - 1) as usize);
        }
    }
}

/// Every child directory is among the subdirectories.
proof fn lemma_subdirs_contains(c: Seq<Object>, j: int)
    requires
        0 <= j < c.len(),
        c[j] is Dir,
    ensures
        subdirs(c).contains(j as usize),
    decreases c.len(),
{
    if j < c.len() - 1 {
        assert(c.drop_last()[j] == c[j]);
        lemma_subdirs_contains(c.drop_last(), j);
        let s = subdirs(c.drop_last());
        let x = choose|x: int| 0 <= x < s.len() && s[x] == j as usize;
        if c.last() is Dir {
            assert(s.push((c.len() - 1) as usize)[x] == j as usize);
        }
    } else {
        assert(subdirs(c).last() == j as usize);
    }
}

/// Passing over the position at `head` keeps the tree covered.
proof fn lemma_covers_skip(
    t: DirObject,
    q: Seq<Seq<usize>>,
    h: int,
    handed: Set<Seq<usize>>,
    skipped: Set<Seq<usize>>,
)
    requires
        covers(t, q, h, handed, skipped),
        0 <= h < q.len(),
    ensures
        covers(t, q, h + 1, handed, skipped.insert(q[h])),
{
    assert forall|p: Seq<usize>| #[trigger] node_at(t, p) is Some implies under_queue(q, h + 1, p)
        || handed.contains(p) || under(skipped.insert(q[h]), p) by {
        if under_queue(q, h, p) {
            let (m, k) = choose|m: int, k: int|
                #![trigger q[m], p.subrange(0, k)]
                h <= m < q.len() && 0 <= k <= p.len() && q[m] == p.subrange(0, k);
            if m == h {
                assert(skipped.insert(q[h]).contains(p.subrange(0, k)));
            } else {
                assert(q[m] == p.subrange(0, k));
            }
        } else if under(skipped, p) {
            let k = choose|k: int| 0 <= k <= p.len() && #[trigger] skipped.contains(p.subrange(0, k));
            assert(skipped.insert(q[h]).contains(p.subrange(0, k)));
        }
    }
}

/// Handing out the directory at `head` and queueing all its subdirectories
/// keeps the tree covered.
proof fn lemma_covers_visit(
    t: DirObject,
    q: Seq<Seq<usize>>,
    h: int,
    handed: Set<Seq<usize>>,
    skipped: Set<Seq<usize>>,
    d: DirObject,
)
    requires
        covers(t, q, h, handed, skipped),
        0 <= h < q.len(),
        node_at(t, q[h]) == Some(d),
    ensures
        covers(t, q + extend_positions(q[h], subdirs(d.children@)), h + 1, handed.insert(q[h]), skipped),
{
    let pos = q[h];
    let ext = extend_positions(pos, subdirs(d.children@));
    let q2 = q + ext;
    assert forall|p: Seq<usize>| #[trigger] node_at(t, p) is Some implies under_queue(q2, h + 1, p)
        || handed.insert(pos).contains(p) || under(skipped, p) by {
        if under_queue(q, h, p) {
            let (m, k) = choose|m: int, k: int|
                #![trigger q[m], p.subrange(0, k)]
                h <= m < q.len() && 0 <= k <= p.len() && q[m] == p.subrange(0, k);
            if m != h {
                assert(q2[m] == q[m]);
                assert(q2[m] == p.subrange(0, k));
            } else if k == p.len() {
                assert(p.subrange(0, k) =~= p);
            } else {
                let j = p[k];
                lemma_node_at_prefix(t, p, k + 1);
                assert(p.subrange(0, k + 1) =~= pos.push(j));
                lemma_node_at_push(t, pos, j);
                assert(d.children@[j as int] is Dir);
                lemma_subdirs_contains(d.children@, j as int);
                let sd = subdirs(d.children@);
                let x = choose|x: int| 0 <= x < sd.len() && sd[x] == j;
                assert(ext[x] == pos.push(j));
                assert(q2[q.len() + x] == ext[x]);
                assert(q2[q.len() + x] == p.subrange(0, k + 1));
            }
        }
    }
}

/// Following one more index from a directory reaches its child directory.
pub proof fn lemma_node_at_push(t: DirObject, pos: Seq<usize>, j: usize)
    requires
        node_at(t, pos) is Some,
    ensures
        node_at(t, pos.push(j)) == (match node_at(t, pos) {
            Some(n) => if j < n.children@.len() {
                match n.children@[j as int] {
                    Object::Dir(c) => Some(c),
                    _ => None,
                }
            } else {
                None
            },
            None => None,
        }),
    decreases pos.len(),
{
    let q = pos.push(j);
    if pos.len() > 0 {
        assert(q.drop_first() =~= pos.drop_first().push(j));
        assert(q[0] == pos[0]);
        match t.children@[pos[0] as int] {
            Object::Dir(c) => {
                lemma_node_at_push(c, pos.drop_first(), j);
                assert(node_at(t, q) == node_at(c, q.drop_first()));
            },
            _ => {},
        }
    } else {
        assert(q.drop_first() =~= Seq::<usize>::empty());
        assert(q[0] == j);
        assert(node_at(t, pos) == Some(t));
        if j < t.children@.len() {
            match t.children@[j as int] {
                Object::Dir(c) => {
                    assert(node_at(c, q.drop_first()) == Some(c));
                },
                _ => {},
            }
        }
    }
}

/// A copy of a position.
pub(crate) fn copy_pos(v: &Vec<usize>) -> (r: Vec<usize>)
    ensures
        r@ == v@,
{
    let mut r: Vec<usize> = Vec::new();
    let mut i: usize = 0;
    while i < v.len()
        invariant
            i <= v@.len(),
            r@ == v@.subrange(0, i as int),
        decreases v@.len() - i,
    {
        r.push(v[i]);
        i += 1;
        assert(r@ =~= v@.subrange(0, i as int));
    }
    assert(r@ =~= v@);
    r
}

/// The stale documents and the subdirectories of `d`.
fn scan_children(d: &DirObject, record: &HashStoreRw) -> (r: (Vec<usize>, Vec<usize>))
    ensures
        r.0@ == stale_docs(d.children@, record@),
        r.1@ == subdirs(d.children@),
{
    let mut stale: Vec<usize> = Vec::new();
    let mut dirs: Vec<usize> = Vec::new();
    let n = d.children.len();
    let mut i: usize = 0;
    while i < n
        invariant
            n == d.children@.len(),
            i <= n,
            stale@ == stale_docs(d.children@.subrange(0, i as int), record@),
            dirs@ == subdirs(d.children@.subrange(0, i as int)),
        decreases n - i,
    {
        let ghost pre = d.children@.subrange(0, i + 1);
        assert(pre.drop_last() =~= d.children@.subrange(0, i as int));
        match &d.children[i] {
            Object::SourceFile(f) => {
                let name = f.path.file_name_bytes();
                if !record.source_hash_eq(&name, &f.contents_hash) {
                    stale.push(i);
                }
            },
            Object::Dir(_) => {
                dirs.push(i);
            },
            _ => {},
        }
        i += 1;
    }
    assert(d.children@.subrange(0, n as int) =~= d.children@);
    (stale, dirs)
}

impl DirWalk {
    /// The positions still to visit, in order.
    pub closed spec fn pending(&self) -> Seq<Seq<usize>> {
        self.queue@.subrange(self.head as int, self.queue@.len() as int).map_values(
            |v: Vec<usize>| v@,
        )
    }

    /// The walk's own bookkeeping is consistent.
    pub closed spec fn wf(&self) -> bool {
        &&& self.head <= self.queue@.len()
        &&& self.chains@.len() == self.queue@.len()
    }

    /// Every position queued so far, in order.
    pub closed spec fn queue_view(&self) -> Seq<Seq<usize>> {
        self.queue@.map_values(|v: Vec<usize>| v@)
    }

    /// The positions of the directories handed out so far.
    pub closed spec fn handed_out(&self) -> Set<Seq<usize>> {
        self.handed@
    }

    /// The positions of the directories passed over so far, each with
    /// everything below it.
    pub closed spec fn passed_over(&self) -> Set<Seq<usize>> {
        self.skipped@
    }

    /// Once the walk is done, every directory of `t` was handed out or lies
    /// at or below a directory that was passed over.
    pub proof fn lemma_done_covers(&self, t: DirObject)
        requires
            self.wf(),
            self.consistent(t),
            self.pending().len() == 0,
        ensures
            forall|p: Seq<usize>|
                #![trigger node_at(t, p)]
                node_at(t, p) is Some ==> self.handed_out().contains(p) || under(self.passed_over(), p),
    {
        assert(self.pending().len() == self.queue@.len() - self.head);
    }

    /// The records that the ancestors of the next directory were compared with.
    pub closed spec fn next_chain(&self) -> Seq<Option<RecordView>> {
        self.chains@[self.head as int]
    }

    /// Every directory still to visit lies in `t`, below directories that
    /// were visited because they did not match their records; and every
    /// directory of `t` is accounted for.
    pub closed spec fn consistent(&self, t: DirObject) -> bool {
        &&& covers(t, self.queue_view(), self.head as int, self.handed@, self.skipped@)
        &&& self.queued_ok(t)
    }

    /// The queued positions lie in `t`, each with the records its ancestors
    /// were compared with, none of which matched.
    closed spec fn queued_ok(&self, t: DirObject) -> bool {
        forall|m: int|
            #![trigger self.queue@[m]]
            self.head <= m < self.queue@.len() ==> node_at(t, self.queue@[m]@) is Some
                && self.chains@[m].len() == self.queue@[m]@.len() && (forall|k: int|
                #![trigger self.queue@[m]@.subrange(0, k)]
                0 <= k < self.queue@[m]@.len() ==> node_at(t, self.queue@[m]@.subrange(0, k)) is Some
                    && !merkle_matches(
                    self.chains@[m][k],
                    node_at(t, self.queue@[m]@.subrange(0, k))->0.merkle_hash.0,
                ))
    }

    /// Whether every directory to visit has been visited.
    pub fn is_done(&self) -> (r: bool)
        requires
            self.wf(),
        ensures
            r == (self.pending().len() == 0),
    {
        self.head >= self.queue.len()
    }

    /// The position of the next directory to visit; its record is what
    /// `next` needs.
    pub fn next_dir(&self) -> (r: Option<&Vec<usize>>)
        requires
            self.wf(),
        ensures
            r is None <==> self.pending().len() == 0,
            r matches Some(p) ==> p@ == self.pending()[0],
    {
        if self.head < self.queue.len() {
            Some(&self.queue[self.head])
        } else {
            None
        }
    }

    /// Queues the child `j` of the directory at `pos`, which was visited
    /// after comparing its ancestors and itself with `chain`.
    fn queue_child(&mut self, tree: &DirTree, pos: &Vec<usize>, j: usize, chain: Ghost<Seq<Option<RecordView>>>)
        requires
            old(self).wf(),
            old(self).queued_ok(tree.root),
            visited_along(tree.root, pos@, chain@),
            node_at(tree.root, pos@.push(j)) is Some,
        ensures
            final(self).wf(),
            final(self).queued_ok(tree.root),
            final(self).head == old(self).head,
            final(self).handed@ == old(self).handed@,
            final(self).skipped@ == old(self).skipped@,
            final(self).queue@.len() == old(self).queue@.len() + 1,
            final(self).queue_view() == old(self).queue_view().push(pos@.push(j)),
            final(self).pending() == old(self).pending().push(pos@.push(j)),
    {
        let mut p = copy_pos(pos);
        p.push(j);
        let ghost before = self.queue@;
        let ghost before_pending = self.pending();
        let ghost before_view = self.queue_view();
        let ghost pv = p@;
        self.queue.push(p);
        proof {
            self.chains@ = self.chains@.push(chain@);
            assert forall|m: int| self.head <= m < self.queue@.len() implies node_at(
                tree.root,
                (#[trigger] self.queue@[m])@,
            ) is Some && self.chains@[m].len() == self.queue@[m]@.len() && (forall|i: int|
                #![trigger self.queue@[m]@.subrange(0, i)]
                0 <= i < self.queue@[m]@.len() ==> node_at(tree.root, self.queue@[m]@.subrange(0, i)) is Some
                    && !merkle_matches(
                    self.chains@[m][i],
                    node_at(tree.root, self.queue@[m]@.subrange(0, i))->0.merkle_hash.0,
                )) by {
                if m < before.len() {
                    assert(self.queue@[m] == before[m]);
                } else {
                    assert(self.queue@[m]@ == pv);
                    assert forall|i: int| 0 <= i < pv.len() implies node_at(tree.root, #[trigger] pv.subrange(0, i))
                        is Some && !merkle_matches(
                        self.chains@[m][i],
                        node_at(tree.root, pv.subrange(0, i))->0.merkle_hash.0,
                    ) by {
                        assert(pv.subrange(0, i) =~= pos@.subrange(0, i));
                    }
                }
            }
            assert(self.queue@.subrange(self.head as int, self.queue@.len() as int) =~= before.subrange(
                self.head as int,
                before.len() as int,
            ).push(self.queue@.last()));
            assert(self.pending() =~= before_pending.push(pv));
            assert(self.queue_view() =~= before_view.push(pv));
        }
    }

    /// Visits the next directory, given the record of its last visit: hands
    /// out its work, if any, and queues the subdirectories to look at.
    pub fn next(&mut self, tree: &DirTree, record: &HashStoreRw) -> (r: Option<Dir>)
        requires
            old(self).wf(),
            old(self).consistent(tree.root),
        ensures
            old(self).pending().len() == 0 ==> r is None && *final(self) == *old(self),
            final(self).wf(),
            final(self).consistent(tree.root),
            old(self).pending().len() > 0 ==> (r matches Some(item) ==> visited_along(
                tree.root,
                item.at@,
                old(self).next_chain().push(record@),
            )),
            old(self).pending().len() > 0 && r is Some ==> final(self).handed_out() == old(self).handed_out().insert(old(self).pending()[0])
                && final(self).passed_over() == old(self).passed_over(),
            old(self).pending().len() > 0 && r is None ==> final(self).passed_over() == old(self).passed_over().insert(old(self).pending()[0])
                && final(self).handed_out() == old(self).handed_out(),
            old(self).pending().len() > 0 && record@ is None ==> r is Some,
            old(self).pending().len() > 0 ==> ({
                let pos = old(self).pending()[0];
                let rest = old(self).pending().drop_first();
                match node_at(tree.root, pos) {
                    None => r is None && final(self).pending() == rest,
                    Some(d) => match visit(d, record@) {
                        None => r is None && final(self).pending() == rest,
                        Some(w) => r matches Some(item) && item.at@ == pos && item.to_render@
                            == w.to_render && item.should_render_index == w.rebuild_index
                            && final(self).pending() == rest + extend_positions(pos, w.descend),
                    },
                }
            }),
    {
        if self.head >= self.queue.len() {
            return None;
        }
        let ghost old_pending = self.pending();
        let ghost chain = self.next_chain().push(record@);
        let ghost q0 = self.queue_view();
        let ghost h0 = self.head as int;
        assert(old_pending.len() == self.queue@.len() - self.head);
        assert(self.head < self.queue.len());
        let pos = copy_pos(&self.queue[self.head]);
        assert(self.queue@[self.head as int]@ == pos@);
        assert(q0[h0] == pos@);
        self.head = self.head + 1;
        proof {
            assert(self.pending() =~= old_pending.drop_first());
        }
        let d = match tree.dir_at(&pos) {
            Some(d) => d,
            None => {
                proof {
                    lemma_covers_skip(tree.root, q0, h0, self.handed@, self.skipped@);
                    self.skipped@ = self.skipped@.insert(pos@);
                    assert(self.queue_view() == q0);
                }
                return None;
            },
        };
        if record.merkle_hash_eq(&d.merkle_hash) {
            proof {
                lemma_covers_skip(tree.root, q0, h0, self.handed@, self.skipped@);
                self.skipped@ = self.skipped@.insert(pos@);
                assert(self.queue_view() == q0);
            }
            return None;
        }
        proof {
            assert(pos@.subrange(0, pos@.len() as int) =~= pos@);
            assert forall|k: int| 0 <= k <= pos@.len() implies node_at(tree.root, #[trigger] pos@.subrange(0, k))
                is Some && !merkle_matches(chain[k], node_at(tree.root, pos@.subrange(0, k))->0.merkle_hash.0) by {
                if k < pos@.len() {
                    assert(old(self).queue@[old(self).head as int]@ == pos@);
                }
            }
            lemma_covers_visit(tree.root, q0, h0, self.handed@, self.skipped@, *d);
            self.handed@ = self.handed@.insert(pos@);
        }
        let (to_render, dirs) = scan_children(d, record);
        let ghost base = self.pending();
        let ghost qlen = self.queue@.len();
        let mut k: usize = 0;
        while k < dirs.len()
            invariant
                self.wf(),
                self.queued_ok(tree.root),
                self.handed@ == old(self).handed@.insert(pos@),
                self.skipped@ == old(self).skipped@,
                self.head as int == h0 + 1,
                node_at(tree.root, pos@) == Some(*d),
                dirs@ == subdirs(d.children@),
                visited_along(tree.root, pos@, chain),
                k <= dirs@.len(),
                qlen == q0.len(),
                self.queue@.len() == qlen + k,
                self.queue_view() == q0 + extend_positions(pos@, dirs@.subrange(0, k as int)),
                self.pending() == base + extend_positions(pos@, dirs@.subrange(0, k as int)),
            decreases dirs@.len() - k,
        {
            proof {
                assert(d.children@.len() == d.children.len());
                lemma_subdirs_are_dirs(d.children@, k as int);
                lemma_node_at_push(tree.root, pos@, dirs@[k as int]);
            }
            self.queue_child(tree, &pos, dirs[k], Ghost(chain));
            proof {
                assert(extend_positions(pos@, dirs@.subrange(0, k + 1)) =~= extend_positions(
                    pos@,
                    dirs@.subrange(0, k as int),
                ).push(pos@.push(dirs@[k as int])));
            }
            k += 1;
        }
        assert(dirs@.subrange(0, dirs@.len() as int) =~= dirs@);
        let should_render_index = !record.dir_hash_eq(&d.children_hash);
        Some(Dir { at: pos, to_render, should_render_index })
    }
}

impl DirTree {
    /// A walk that starts at the root.
    pub fn walk(&self) -> (r: DirWalk)
        ensures
            r.wf(),
            r.consistent(self.root),
            r.pending() == seq![Seq::<usize>::empty()],
    {
        let mut queue: Vec<Vec<usize>> = Vec::new();
        queue.push(Vec::new());
        let ghost first: Seq<Seq<Option<RecordView>>> = seq![Seq::<Option<RecordView>>::empty()];
        let r = DirWalk {
            queue,
            head: 0,
            chains: Ghost(first),
            handed: Ghost(Set::empty()),
            skipped: Ghost(Set::empty()),
        };
        assert(r.pending() =~= seq![Seq::<usize>::empty()]);
        proof {
            let qv = r.queue_view();
            assert forall|p: Seq<usize>| #[trigger] node_at(self.root, p) is Some implies under_queue(
                qv,
                0,
                p,
            ) by {
                assert(qv[0] =~= p.subrange(0, 0));
            }
        }
        r
    }

    /// The directory at position `pos`.
    pub fn dir_at(&self, pos: &Vec<usize>) -> (r: Option<&DirObject>)
        ensures
            match node_at(self.root, pos@) {
                Some(d) => r matches Some(x) && *x == d,
                None => r is None,
            },
    {
        dir_in(&self.root, pos)
    }

    /// Where the record of the directory at `pos` goes, and what it holds
    /// now: written for every directory that the walk visited.
    pub fn record_at(&self, pos: &Vec<usize>) -> (r: Option<(FsPath, HashStore)>)
        ensures
            match node_at(self.root, pos@) {
                Some(d) => r matches Some(x) && x.0@ == store_view(d.render_path@) && x.1@ == record_of(d),
                None => r is None,
            },
    {
        match self.dir_at(pos) {
            Some(d) => Some((HashStore::store_path(&d.render_path), HashStore::from_dir(d))),
            None => None,
        }
    }

    /// Sets the merkle hash of every directory below and at `root`, children
    /// before parents; nothing else changes.
    pub fn compute_merkle_hash(root: &mut DirObject)
        ensures
            merkle_ok(*final(root)),
            same_but_merkle(*old(root), *final(root)),
        decreases *old(root),
    {
        let mut hasher = DefaultHasher::new();
        let head = word_to_bytes(root.children_hash.0);
        hasher.write(head.as_slice());
        let n = root.children.len();
        let mut i: usize = 0;
        assert(contributions(root.children@.subrange(0, 0)) =~= seq![]);
        assert(hasher@ =~= seq![word_bytes(root.children_hash.0)] + contributions(root.children@.subrange(0, 0)));
        while i < n
            invariant
                n == root.children@.len(),
                n == old(root).children@.len(),
                i <= n,
                root.path == old(root).path,
                root.render_path == old(root).render_path,
                root.children_hash == old(root).children_hash,
                forall|j: int|
                    #![trigger root.children@[j]]
                    0 <= j < i ==> match (old(root).children@[j], root.children@[j]) {
                        (Object::Dir(x), Object::Dir(y)) => same_but_merkle(x, y) && merkle_ok(y),
                        (x, y) => x == y && !(x is Dir),
                    },
                forall|j: int| i <= j < n ==> root.children@[j] == old(root).children@[j],
                hasher@ == seq![word_bytes(root.children_hash.0)] + contributions(root.children@.subrange(0, i as int)),
            decreases n - i,
        {
            let ghost start = root.children@;
            let ghost h0 = hasher@;
            let mut slot = Object::Symlink(LinkObject::new(FsPath::new()));
            root.children.set_and_swap(i, &mut slot);
            let back = match slot {
                Object::Dir(mut d) => {
                    proof {
                        assert(old(root).children@[i as int] == Object::Dir(d));
                        assert(decreases_to!(old(root).children => old(root).children@[i as int]));
                    }
                    DirTree::compute_merkle_hash(&mut d);
                    let w = word_to_bytes(d.merkle_hash.0);
                    hasher.write(w.as_slice());
                    Object::Dir(d)
                },
                Object::SourceFile(f) => {
                    let w = word_to_bytes(f.contents_hash.0);
                    hasher.write(w.as_slice());
                    Object::SourceFile(f)
                },
                other => other,
            };
            let mut back = back;
            root.children.set_and_swap(i, &mut back);
            proof {
                let c = root.children@;
                assert(c.subrange(0, i as int) =~= start.subrange(0, i as int));
                assert(c.subrange(0, i + 1).drop_last() =~= c.subrange(0, i as int));
                assert(c.subrange(0, i + 1).last() == c[i as int]);
                assert(contributions(c.subrange(0, i + 1)) == contributions(c.subrange(0, i as int))
                    + contribution(c[i as int]));
                assert(hasher@ =~= h0 + contribution(c[i as int]));
            }
            i += 1;
        }
        assert(root.children@.subrange(0, n as int) =~= root.children@);
        root.merkle_hash = MerkleHash(hasher.finish());
    }
}

/// The directory at position `pos` below `root`.
pub(crate) fn dir_in<'a>(root: &'a DirObject, pos: &Vec<usize>) -> (r: Option<&'a DirObject>)
    ensures
        match node_at(*root, pos@) {
            Some(d) => r matches Some(x) && *x == d,
            None => r is None,
        },
{
    let mut cur: &DirObject = root;
    let mut k: usize = 0;
    assert(pos@.subrange(0, pos@.len() as int) =~= pos@);
    while k < pos.len()
        invariant
            k <= pos@.len(),
            node_at(*root, pos@) == node_at(*cur, pos@.subrange(k as int, pos@.len() as int)),
        decreases pos@.len() - k,
    {
        let ghost rest = pos@.subrange(k as int, pos@.len() as int);
        assert(rest[0] == pos@[k as int]);
        assert(rest.drop_first() =~= pos@.subrange(k + 1, pos@.len() as int));
        let i = pos[k];
        if i >= cur.children.len() {
            return None;
        }
        match &cur.children[i] {
            Object::Dir(c) => {
                cur = c;
            },
            _ => {
                return None;
            },
        }
        k += 1;
    }
    assert(pos@.subrange(k as int, pos@.len() as int) =~= Seq::<usize>::empty());
    Some(cur)
}

} // verus!
