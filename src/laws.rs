//! What holds of the sync engine across runs: which directories a run
//! visits, what it renders, and how an edit shows in the hashes.
use crate::hash::{digest, lemma_word_bytes_injective, word_bytes};
use crate::object::{identity, structural_hash, DirObject, Object};
use crate::store::{
    content_matches, doc_names_distinct, merkle_matches, record_of, recorded_hash,
    source_entries, structural_matches, RecordView,
};
use crate::path::name_bytes;
use crate::tree::{
    contribution, contributions, lemma_node_at_prefix, merkle_ok, merkle_writes, node_at, structure_ok, stale_docs, subdirs, under,
    visit, visited_along, DirWalk, WorkView,
};
use vstd::prelude::*;

verus! {

/// Positions of the documents among `children`.
pub open spec fn docs(children: Seq<Object>) -> Seq<usize>
    decreases children.len(),
{
    if children.len() == 0 {
        seq![]
    } else {
        let rest = docs(children.drop_last());
        match children.last() {
            Object::SourceFile(_) => rest.push((children.len() - 1) as usize),
            _ => rest,
        }
    }
}

/// A run over tree `t`, whose directories find their records through
/// `recs` (by position), visits the directory at `pos`: every directory on
/// the way there, itself included, exists and does not match its record.
pub open spec fn visited(t: DirObject, recs: spec_fn(Seq<usize>) -> Option<RecordView>, pos: Seq<usize>) -> bool {
    forall|k: int|
        #![trigger pos.subrange(0, k)]
        0 <= k <= pos.len() ==> node_at(t, pos.subrange(0, k)) is Some && !merkle_matches(
            recs(pos.subrange(0, k)),
            node_at(t, pos.subrange(0, k))->0.merkle_hash.0,
        )
}

/// Without a record every document is stale.
proof fn lemma_stale_without_record(c: Seq<Object>)
    ensures
        stale_docs(c, None) == docs(c),
    decreases c.len(),
{
    if c.len() > 0 {
        lemma_stale_without_record(c.drop_last());
    }
}

/// A run right after a run over the same tree does nothing: the root's
/// record holds the root's merkle hash, so the root is skipped, and with it
/// every directory below; no document is rendered and no index rebuilt.
pub proof fn law_second_run_does_nothing(t: DirObject, recs: spec_fn(Seq<usize>) -> Option<RecordView>)
    requires
        recs(Seq::<usize>::empty()) == Some(record_of(t)),
    ensures
        visit(t, recs(Seq::<usize>::empty())) is None,
        forall|pos: Seq<usize>| !visited(t, recs, pos),
{
    assert forall|pos: Seq<usize>| !visited(t, recs, pos) by {
        assert(pos.subrange(0, 0) =~= Seq::<usize>::empty());
    }
}

/// With no records at all, a run visits every directory, renders every
/// document in it, rebuilds its index, and looks at every subdirectory.
pub proof fn law_first_run_does_everything(t: DirObject, recs: spec_fn(Seq<usize>) -> Option<RecordView>)
    requires
        forall|q: Seq<usize>| #[trigger] recs(q) is None,
    ensures
        forall|pos: Seq<usize>|
            #![trigger node_at(t, pos)]
            node_at(t, pos) is Some ==> visited(t, recs, pos) && visit(node_at(t, pos)->0, recs(pos))
                == Some(
                WorkView {
                    to_render: docs(node_at(t, pos)->0.children@),
                    rebuild_index: true,
                    descend: subdirs(node_at(t, pos)->0.children@),
                },
            ),
{
    assert forall|pos: Seq<usize>| #[trigger] node_at(t, pos) is Some implies visited(t, recs, pos)
        && visit(node_at(t, pos)->0, recs(pos)) == Some(
        WorkView {
            to_render: docs(node_at(t, pos)->0.children@),
            rebuild_index: true,
            descend: subdirs(node_at(t, pos)->0.children@),
        },
    ) by {
        assert forall|k: int| 0 <= k <= pos.len() implies node_at(t, #[trigger] pos.subrange(0, k)) is Some
            && !merkle_matches(recs(pos.subrange(0, k)), node_at(t, pos.subrange(0, k))->0.merkle_hash.0) by {
            lemma_node_at_prefix(t, pos, k);
            assert(recs(pos.subrange(0, k)) is None);
        }
        assert(recs(pos) is None);
        lemma_stale_without_record(node_at(t, pos)->0.children@);
    }
}

/// A subtree whose record describes it as it is is never visited below
/// its root: no directory under `q` is listed, hashed or rendered.
pub proof fn law_unchanged_subtree_is_skipped(
    t: DirObject,
    recs: spec_fn(Seq<usize>) -> Option<RecordView>,
    q: Seq<usize>,
    rest: Seq<usize>,
)
    requires
        node_at(t, q) is Some,
        recs(q) == Some(record_of(node_at(t, q)->0)),
    ensures
        !visited(t, recs, q + rest),
{
    let pos = q + rest;
    assert(pos.subrange(0, q.len() as int) =~= q);
    assert(!(node_at(t, pos.subrange(0, q.len() as int)) is Some && !merkle_matches(
        recs(pos.subrange(0, q.len() as int)),
        node_at(t, pos.subrange(0, q.len() as int))->0.merkle_hash.0,
    )));
}

/// The walk never hands out a directory below (or at) a directory whose
/// record, as the walk was given it, describes that directory as it is now.
pub proof fn law_walk_skips_unchanged_subtree(t: DirObject, pos: Seq<usize>, recs: Seq<Option<RecordView>>, k: int)
    requires
        0 <= k <= pos.len(),
        recs.len() == pos.len() + 1,
        node_at(t, pos.subrange(0, k)) is Some,
        recs[k] == Some(record_of(node_at(t, pos.subrange(0, k))->0)),
    ensures
        !visited_along(t, pos, recs),
{
    assert(!(node_at(t, pos.subrange(0, k)) is Some && !merkle_matches(
        recs[k],
        node_at(t, pos.subrange(0, k))->0.merkle_hash.0,
    )));
}

/// A walk that has finished without passing over any directory (as on a
/// first run, where no directory has a record) has handed out every
/// directory of the tree.
pub proof fn law_walk_without_skips_hands_out_everything(w: &DirWalk, t: DirObject)
    requires
        w.wf(),
        w.consistent(t),
        w.pending().len() == 0,
        w.passed_over() == Set::<Seq<usize>>::empty(),
    ensures
        forall|p: Seq<usize>| #[trigger] node_at(t, p) is Some ==> w.handed_out().contains(p),
{
    w.lemma_done_covers(t);
    assert forall|p: Seq<usize>| #[trigger] node_at(t, p) is Some implies w.handed_out().contains(p) by {
        if !w.handed_out().contains(p) {
            assert(under(w.passed_over(), p));
            let k = choose|k: int| 0 <= k <= p.len() && #[trigger] w.passed_over().contains(p.subrange(0, k));
        }
    }
}

/// Contributions of two lists, one after the other.
proof fn lemma_contributions_concat(s: Seq<Object>, t: Seq<Object>)
    ensures
        contributions(s + t) == contributions(s) + contributions(t),
    decreases t.len(),
{
    if t.len() == 0 {
        assert(s + t =~= s);
        assert(contributions(s) + contributions(t) =~= contributions(s));
    } else {
        lemma_contributions_concat(s, t.drop_last());
        assert((s + t).drop_last() =~= s + t.drop_last());
        assert((s + t).last() == t.last());
        assert(contributions(s) + contributions(t) =~= contributions(s) + contributions(t.drop_last())
            + contribution(t.last()));
    }
}

/// Two lists of children that differ at `idx` alone, where each contributes
/// one word, give merkle writes that differ exactly when those words differ.
proof fn lemma_one_changed_contribution(c1: Seq<Object>, c2: Seq<Object>, idx: int, w1: u64, w2: u64)
    requires
        c1.len() == c2.len(),
        0 <= idx < c1.len(),
        forall|j: int| 0 <= j < c1.len() && j != idx ==> c1[j] == c2[j],
        contribution(c1[idx]) == seq![word_bytes(w1)],
        contribution(c2[idx]) == seq![word_bytes(w2)],
        w1 != w2,
    ensures
        contributions(c1) != contributions(c2),
{
    let pre = c1.subrange(0, idx);
    let post = c1.subrange(idx + 1, c1.len() as int);
    assert(c2.subrange(0, idx) =~= pre);
    assert(c2.subrange(idx + 1, c2.len() as int) =~= post);
    assert(c1 =~= pre + seq![c1[idx]] + post);
    assert(c2 =~= pre + seq![c2[idx]] + post);
    lemma_contributions_concat(pre + seq![c1[idx]], post);
    lemma_contributions_concat(pre, seq![c1[idx]]);
    lemma_contributions_concat(pre + seq![c2[idx]], post);
    lemma_contributions_concat(pre, seq![c2[idx]]);
    assert(seq![c1[idx]].drop_last() =~= Seq::<Object>::empty());
    assert(seq![c2[idx]].drop_last() =~= Seq::<Object>::empty());
    assert(contributions(Seq::<Object>::empty()) =~= Seq::<Seq<u8>>::empty());
    assert(seq![c1[idx]].last() == c1[idx]);
    assert(seq![c2[idx]].last() == c2[idx]);
    assert(contributions(seq![c1[idx]]) =~= seq![word_bytes(w1)]);
    assert(contributions(seq![c2[idx]]) =~= seq![word_bytes(w2)]);
    let n = contributions(pre).len() as int;
    assert(contributions(c1)[n] == word_bytes(w1));
    assert(contributions(c2)[n] == word_bytes(w2));
    if word_bytes(w1) == word_bytes(w2) {
        lemma_word_bytes_injective(w1, w2);
    }
}

/// Two lists of children that differ at `idx` alone, in a child that keeps
/// its kind and name, have the same structural hash.
proof fn lemma_one_changed_identity(c1: Seq<Object>, c2: Seq<Object>, idx: int)
    requires
        c1.len() == c2.len(),
        0 <= idx < c1.len(),
        forall|j: int| 0 <= j < c1.len() && j != idx ==> c1[j] == c2[j],
        identity(c1[idx]) == identity(c2[idx]),
    ensures
        structural_hash(c1) == structural_hash(c2),
{
    assert(crate::object::structural_writes(c1) =~= crate::object::structural_writes(c2));
}

/// Editing one document's content: its directory's structural hash stays
/// as it was, every other child stays as it was, and the input to the
/// directory's merkle hash changes.
pub proof fn law_edit_document(a: DirObject, b: DirObject, idx: int)
    requires
        a.children@.len() == b.children@.len(),
        0 <= idx < a.children@.len(),
        forall|j: int| 0 <= j < a.children@.len() && j != idx ==> a.children@[j] == b.children@[j],
        a.children@[idx] is SourceFile,
        b.children@[idx] is SourceFile,
        a.children@[idx]->SourceFile_0.path == b.children@[idx]->SourceFile_0.path,
        a.children@[idx]->SourceFile_0.contents_hash != b.children@[idx]->SourceFile_0.contents_hash,
        a.children_hash.0 == structural_hash(a.children@),
        b.children_hash.0 == structural_hash(b.children@),
    ensures
        a.children_hash == b.children_hash,
        merkle_writes(a) != merkle_writes(b),
{
    let f1 = a.children@[idx]->SourceFile_0;
    let f2 = b.children@[idx]->SourceFile_0;
    lemma_one_changed_identity(a.children@, b.children@, idx);
    lemma_one_changed_contribution(a.children@, b.children@, idx, f1.contents_hash.0, f2.contents_hash.0);
    assert(merkle_writes(a).drop_first() =~= contributions(a.children@));
    assert(merkle_writes(b).drop_first() =~= contributions(b.children@));
}

/// A change below a subdirectory: where the subdirectory's merkle hash
/// changed and nothing else did, its parent's structural hash stays as it
/// was and the input to the parent's merkle hash changes. Applied from the
/// edited document up, this reaches every ancestor, and no sibling.
pub proof fn law_changed_subdirectory(a: DirObject, b: DirObject, idx: int)
    requires
        a.children@.len() == b.children@.len(),
        0 <= idx < a.children@.len(),
        forall|j: int| 0 <= j < a.children@.len() && j != idx ==> a.children@[j] == b.children@[j],
        a.children@[idx] is Dir,
        b.children@[idx] is Dir,
        a.children@[idx]->Dir_0.path == b.children@[idx]->Dir_0.path,
        a.children@[idx]->Dir_0.merkle_hash != b.children@[idx]->Dir_0.merkle_hash,
        a.children_hash.0 == structural_hash(a.children@),
        b.children_hash.0 == structural_hash(b.children@),
    ensures
        a.children_hash == b.children_hash,
        merkle_writes(a) != merkle_writes(b),
{
    let x = a.children@[idx]->Dir_0;
    let y = b.children@[idx]->Dir_0;
    lemma_one_changed_identity(a.children@, b.children@, idx);
    lemma_one_changed_contribution(a.children@, b.children@, idx, x.merkle_hash.0, y.merkle_hash.0);
    assert(merkle_writes(a).drop_first() =~= contributions(a.children@));
    assert(merkle_writes(b).drop_first() =~= contributions(b.children@));
}

/// `b` is `a` with the content of one document changed: the document at
/// `idx` in the directory reached by `pos`. Everything off that chain of
/// directories, siblings and cousins included, is the same in both.
pub open spec fn edited(a: DirObject, b: DirObject, pos: Seq<usize>, idx: int) -> bool
    decreases pos.len(),
{
    &&& a.path == b.path
    &&& a.children@.len() == b.children@.len()
    &&& if pos.len() == 0 {
        &&& 0 <= idx < a.children@.len()
        &&& forall|j: int| 0 <= j < a.children@.len() && j != idx ==> a.children@[j] == b.children@[j]
        &&& a.children@[idx] is SourceFile
        &&& b.children@[idx] is SourceFile
        &&& a.children@[idx]->SourceFile_0.path == b.children@[idx]->SourceFile_0.path
        &&& a.children@[idx]->SourceFile_0.contents_hash != b.children@[idx]->SourceFile_0.contents_hash
    } else {
        let i = pos[0] as int;
        &&& 0 <= i < a.children@.len()
        &&& forall|j: int| 0 <= j < a.children@.len() && j != i ==> a.children@[j] == b.children@[j]
        &&& a.children@[i] is Dir
        &&& b.children@[i] is Dir
        &&& edited(a.children@[i]->Dir_0, b.children@[i]->Dir_0, pos.drop_first(), idx)
    }
}

/// Along the chain of `pos`, no two different merkle inputs have the same
/// digest.
pub open spec fn chain_collision_free(a: DirObject, b: DirObject, pos: Seq<usize>) -> bool
    decreases pos.len(),
{
    &&& (merkle_writes(a) != merkle_writes(b) ==> digest(merkle_writes(a)) != digest(merkle_writes(b)))
    &&& (pos.len() > 0 && pos[0] < a.children@.len() && pos[0] < b.children@.len()) ==> match (
        a.children@[pos[0] as int],
        b.children@[pos[0] as int],
    ) {
        (Object::Dir(x), Object::Dir(y)) => chain_collision_free(x, y, pos.drop_first()),
        _ => true,
    }
}

/// Editing one document anywhere in the tree: the root's structural hash
/// stays as it was, and, barring a collision of digests on the way up, its
/// merkle hash changes. The same holds at every directory on the chain,
/// which are themselves edited trees; every directory off the chain is the
/// same in both trees.
pub proof fn law_edit_propagates(a: DirObject, b: DirObject, pos: Seq<usize>, idx: int)
    requires
        edited(a, b, pos, idx),
        structure_ok(a),
        structure_ok(b),
        merkle_ok(a),
        merkle_ok(b),
        chain_collision_free(a, b, pos),
    ensures
        a.children_hash == b.children_hash,
        a.merkle_hash != b.merkle_hash,
    decreases pos.len(),
{
    if pos.len() == 0 {
        law_edit_document(a, b, idx);
    } else {
        let i = pos[0] as int;
        let x = a.children@[i]->Dir_0;
        let y = b.children@[i]->Dir_0;
        assert(match a.children@[i] {
            Object::Dir(c) => structure_ok(c) && merkle_ok(c),
            _ => true,
        });
        assert(match b.children@[i] {
            Object::Dir(c) => structure_ok(c) && merkle_ok(c),
            _ => true,
        });
        law_edit_propagates(x, y, pos.drop_first(), idx);
        law_changed_subdirectory(a, b, i);
    }
}

/// `q` is `pos` or a leading part of it.
pub open spec fn is_prefix(q: Seq<usize>, pos: Seq<usize>) -> bool {
    q.len() <= pos.len() && pos.subrange(0, q.len() as int) == q
}

/// Off the chain of an edit, the two trees have the same directories.
proof fn lemma_edited_off_chain(a: DirObject, b: DirObject, pos: Seq<usize>, idx: int, q: Seq<usize>)
    requires
        edited(a, b, pos, idx),
        !is_prefix(q, pos),
        node_at(b, q) is Some,
    ensures
        node_at(a, q) == node_at(b, q),
    decreases q.len(),
{
    if q.len() == 0 {
        assert(pos.subrange(0, 0) =~= q);
    } else {
        let j = q[0] as int;
        if pos.len() == 0 {
            if j != idx {
                assert(a.children@[j] == b.children@[j]);
            }
        } else if j != pos[0] as int {
            assert(a.children@[j] == b.children@[j]);
        } else {
            let x = a.children@[j]->Dir_0;
            let y = b.children@[j]->Dir_0;
            let q1 = q.drop_first();
            let p1 = pos.drop_first();
            if is_prefix(q1, p1) {
                assert(pos.subrange(0, q.len() as int) =~= seq![pos[0]] + p1.subrange(0, q1.len() as int));
                assert(q =~= seq![q[0]] + q1);
            }
            lemma_edited_off_chain(x, y, p1, idx, q1);
        }
    }
}

/// Along the chain of an edit, the directories of the two trees are
/// themselves an edited pair, consistent and free of collisions.
proof fn lemma_edited_on_chain(a: DirObject, b: DirObject, pos: Seq<usize>, idx: int, k: int)
    requires
        edited(a, b, pos, idx),
        structure_ok(a),
        structure_ok(b),
        merkle_ok(a),
        merkle_ok(b),
        chain_collision_free(a, b, pos),
        0 <= k <= pos.len(),
    ensures
        node_at(a, pos.subrange(0, k)) is Some,
        node_at(b, pos.subrange(0, k)) is Some,
        node_at(a, pos.subrange(0, k))->0.merkle_hash != node_at(b, pos.subrange(0, k))->0.merkle_hash,
    decreases k,
{
    if k == 0 {
        assert(pos.subrange(0, 0) =~= Seq::<usize>::empty());
        law_edit_propagates(a, b, pos, idx);
    } else {
        let i = pos[0] as int;
        let x = a.children@[i]->Dir_0;
        let y = b.children@[i]->Dir_0;
        assert(match a.children@[i] {
            Object::Dir(c) => structure_ok(c) && merkle_ok(c),
            _ => true,
        });
        assert(match b.children@[i] {
            Object::Dir(c) => structure_ok(c) && merkle_ok(c),
            _ => true,
        });
        lemma_edited_on_chain(x, y, pos.drop_first(), idx, k - 1);
        let q = pos.subrange(0, k);
        assert(q[0] == pos[0]);
        assert(q.drop_first() =~= pos.drop_first().subrange(0, k - 1));
    }
}

/// An edit deep in the tree, against the records of the run before it: a
/// run visits exactly the directories on the chain from the root to the
/// edited document, barring a collision of digests on that chain; every
/// other directory, at any level, is skipped.
pub proof fn law_edit_visits_exactly_its_chain(
    a: DirObject,
    b: DirObject,
    pos: Seq<usize>,
    idx: int,
    recs: spec_fn(Seq<usize>) -> Option<RecordView>,
)
    requires
        edited(a, b, pos, idx),
        structure_ok(a),
        structure_ok(b),
        merkle_ok(a),
        merkle_ok(b),
        chain_collision_free(a, b, pos),
        forall|q: Seq<usize>| #[trigger] node_at(a, q) is Some ==> recs(q) == Some(record_of(node_at(a, q)->0)),
    ensures
        forall|q: Seq<usize>| #[trigger] node_at(b, q) is Some ==> (visited(b, recs, q) <==> is_prefix(q, pos)),
{
    assert forall|q: Seq<usize>| #[trigger] node_at(b, q) is Some implies (visited(b, recs, q) <==> is_prefix(
        q,
        pos,
    )) by {
        if is_prefix(q, pos) {
            assert forall|k: int| 0 <= k <= q.len() implies node_at(b, #[trigger] q.subrange(0, k)) is Some
                && !merkle_matches(recs(q.subrange(0, k)), node_at(b, q.subrange(0, k))->0.merkle_hash.0) by {
                assert(q.subrange(0, k) =~= pos.subrange(0, k));
                lemma_edited_on_chain(a, b, pos, idx, k);
                assert(node_at(a, pos.subrange(0, k)) is Some);
            }
        } else {
            lemma_edited_off_chain(a, b, pos, idx, q);
            assert(q.subrange(0, q.len() as int) =~= q);
            assert(!(node_at(b, q.subrange(0, q.len() as int)) is Some && !merkle_matches(
                recs(q.subrange(0, q.len() as int)),
                node_at(b, q.subrange(0, q.len() as int))->0.merkle_hash.0,
            )));
        }
    }
}

/// No document of `children` is named `name`.
pub open spec fn no_document_named(children: Seq<Object>, name: Seq<u8>) -> bool {
    forall|j: int|
        #![trigger children[j]]
        0 <= j < children.len() ==> (children[j] is SourceFile ==> name_bytes(
            children[j]->SourceFile_0.path@,
        ) != name)
}

/// A record holds no hash for a name that none of its documents had.
proof fn lemma_no_entry(children: Seq<Object>, name: Seq<u8>)
    requires
        no_document_named(children, name),
    ensures
        recorded_hash(source_entries(children), name) is None,
    decreases children.len(),
{
    if children.len() > 0 {
        let rest = children.drop_last();
        assert(no_document_named(rest, name)) by {
            assert forall|j: int| 0 <= j < rest.len() && #[trigger] rest[j] is SourceFile implies name_bytes(
                rest[j]->SourceFile_0.path@,
            ) != name by {
                assert(rest[j] == children[j]);
            }
        }
        lemma_no_entry(rest, name);
        lemma_recorded_hash_push_other(source_entries(rest), children.last(), name);
    }
}

/// Appending an entry for another name leaves the lookup of `name` unchanged.
proof fn lemma_recorded_hash_push_other(entries: Seq<(Seq<u8>, u64)>, last: Object, name: Seq<u8>)
    requires
        recorded_hash(entries, name) is None,
        last is SourceFile ==> name_bytes(last->SourceFile_0.path@) != name,
    ensures
        recorded_hash(
            match last {
                Object::SourceFile(f) => entries.push((name_bytes(f.path@), f.contents_hash.0)),
                _ => entries,
            },
            name,
        ) is None,
    decreases entries.len(),
{
    if let Object::SourceFile(f) = last {
        let e = (name_bytes(f.path@), f.contents_hash.0);
        lemma_recorded_hash_push_none(entries, e, name);
    }
}

/// Pushing an entry whose name differs keeps a missing name missing.
proof fn lemma_recorded_hash_push_none(entries: Seq<(Seq<u8>, u64)>, e: (Seq<u8>, u64), name: Seq<u8>)
    requires
        recorded_hash(entries, name) is None,
        e.0 != name,
    ensures
        recorded_hash(entries.push(e), name) is None,
    decreases entries.len(),
{
    if entries.len() == 0 {
        assert(entries.push(e).drop_first() =~= Seq::<(Seq<u8>, u64)>::empty());
        assert(entries.push(e)[0] == e);
        assert(recorded_hash(Seq::<(Seq<u8>, u64)>::empty(), name) is None);
    } else {
        assert(entries.push(e).drop_first() =~= entries.drop_first().push(e));
        assert(entries.push(e)[0] == entries[0]);
        lemma_recorded_hash_push_none(entries.drop_first(), e, name);
    }
}

/// A document is stale when its record has no entry of its name.
proof fn lemma_unrecorded_is_stale(c: Seq<Object>, rec: Option<RecordView>, idx: int)
    requires
        0 <= idx < c.len(),
        c[idx] is SourceFile,
        !content_matches(rec, name_bytes(c[idx]->SourceFile_0.path@), c[idx]->SourceFile_0.contents_hash.0),
    ensures
        stale_docs(c, rec).contains(idx as usize),
    decreases c.len(),
{
    if idx < c.len() - 1 {
        let rest = c.drop_last();
        assert(rest[idx] == c[idx]);
        lemma_unrecorded_is_stale(rest, rec, idx);
        let s = stale_docs(rest, rec);
        let k = choose|k: int| 0 <= k < s.len() && s[k] == idx as usize;
        match c.last() {
            Object::SourceFile(f) => {
                if !content_matches(rec, name_bytes(f.path@), f.contents_hash.0) {
                    assert(s.push((c.len() - 1) as usize)[k] == idx as usize);
                }
            },
            _ => {},
        }
    } else {
        let s = stale_docs(c, rec);
        assert(s.last() == idx as usize);
    }
}

/// Renaming a document: a document whose name no document of the last
/// visit had is rendered, whatever its content.
pub proof fn law_renamed_document_is_rendered(before: DirObject, after: DirObject, idx: int)
    requires
        0 <= idx < after.children@.len(),
        after.children@[idx] is SourceFile,
        no_document_named(before.children@, name_bytes(after.children@[idx]->SourceFile_0.path@)),
        after.merkle_hash != before.merkle_hash,
    ensures
        visit(after, Some(record_of(before))) matches Some(w) && w.to_render.contains(idx as usize),
{
    let f = after.children@[idx]->SourceFile_0;
    lemma_no_entry(before.children@, name_bytes(f.path@));
    lemma_unrecorded_is_stale(after.children@, Some(record_of(before)), idx);
}

/// Renaming a document in place changes what its directory's structural
/// hash is computed from, so its index is rebuilt unless the two hashes
/// collide.
pub proof fn law_rename_changes_structure(a: DirObject, b: DirObject, idx: int)
    requires
        a.children@.len() == b.children@.len(),
        0 <= idx < a.children@.len(),
        a.children@[idx] is SourceFile,
        b.children@[idx] is SourceFile,
        name_bytes(a.children@[idx]->SourceFile_0.path@) != name_bytes(b.children@[idx]->SourceFile_0.path@),
    ensures
        crate::object::structural_writes(a.children@) != crate::object::structural_writes(b.children@),
{
    let ia = identity(a.children@[idx]);
    let ib = identity(b.children@[idx]);
    let na = name_bytes(a.children@[idx]->SourceFile_0.path@);
    let nb = name_bytes(b.children@[idx]->SourceFile_0.path@);
    assert(ia == seq![0u8] + na + seq![0xffu8]);
    assert(ib == seq![0u8] + nb + seq![0xffu8]);
    if ia == ib {
        assert(na =~= ia.subrange(1, ia.len() - 1));
        assert(nb =~= ib.subrange(1, ib.len() - 1));
    }
    assert(crate::object::structural_writes(a.children@)[idx] == ia);
    assert(crate::object::structural_writes(b.children@)[idx] == ib);
}


/// A lookup that finds a name keeps finding it after an entry is added.
proof fn lemma_recorded_hash_push_keeps(entries: Seq<(Seq<u8>, u64)>, e: (Seq<u8>, u64), name: Seq<u8>)
    requires
        recorded_hash(entries, name) is Some,
    ensures
        recorded_hash(entries.push(e), name) == recorded_hash(entries, name),
    decreases entries.len(),
{
    assert(entries.push(e)[0] == entries[0]);
    if entries[0].0 != name {
        assert(entries.push(e).drop_first() =~= entries.drop_first().push(e));
        lemma_recorded_hash_push_keeps(entries.drop_first(), e, name);
    }
}

/// Adding the first entry of a name makes the lookup find it.
proof fn lemma_recorded_hash_push_found(entries: Seq<(Seq<u8>, u64)>, e: (Seq<u8>, u64))
    requires
        recorded_hash(entries, e.0) is None,
    ensures
        recorded_hash(entries.push(e), e.0) == Some(e.1),
    decreases entries.len(),
{
    if entries.len() == 0 {
        assert(entries.push(e)[0] == e);
    } else {
        assert(entries.push(e)[0] == entries[0]);
        assert(entries.push(e).drop_first() =~= entries.drop_first().push(e));
        lemma_recorded_hash_push_found(entries.drop_first(), e);
    }
}

/// Where document names are distinct, the record of a directory holds each
/// document's own content hash under its name.
proof fn lemma_recorded_own_entry(c: Seq<Object>, j: int)
    requires
        doc_names_distinct(c),
        0 <= j < c.len(),
        c[j] is SourceFile,
    ensures
        recorded_hash(source_entries(c), name_bytes(c[j]->SourceFile_0.path@)) == Some(
            c[j]->SourceFile_0.contents_hash.0,
        ),
    decreases c.len(),
{
    let rest = c.drop_last();
    let f = c[j]->SourceFile_0;
    let n = name_bytes(f.path@);
    assert(doc_names_distinct(rest)) by {
        assert forall|a: int, b: int|
            0 <= a < b < rest.len() && #[trigger] rest[a] is SourceFile && #[trigger] rest[b] is SourceFile
            implies name_bytes(rest[a]->SourceFile_0.path@) != name_bytes(rest[b]->SourceFile_0.path@) by {
            assert(rest[a] == c[a] && rest[b] == c[b]);
        }
    }
    if j == c.len() - 1 {
        assert(no_document_named(rest, n)) by {
            assert forall|m: int| 0 <= m < rest.len() && #[trigger] rest[m] is SourceFile implies name_bytes(
                rest[m]->SourceFile_0.path@,
            ) != n by {
                assert(rest[m] == c[m]);
            }
        }
        lemma_no_entry(rest, n);
        assert(c.last() == c[j]);
        lemma_recorded_hash_push_found(source_entries(rest), (n, f.contents_hash.0));
    } else {
        assert(rest[j] == c[j]);
        lemma_recorded_own_entry(rest, j);
        if let Object::SourceFile(g) = c.last() {
            lemma_recorded_hash_push_keeps(source_entries(rest), (name_bytes(g.path@), g.contents_hash.0), n);
        }
    }
}

/// Where exactly the document at `idx` does not match its record, it is the
/// only stale one.
proof fn lemma_stale_only(c: Seq<Object>, rec: Option<RecordView>, idx: int)
    requires
        0 <= idx,
        idx < c.len() ==> c[idx] is SourceFile && !content_matches(
            rec,
            name_bytes(c[idx]->SourceFile_0.path@),
            c[idx]->SourceFile_0.contents_hash.0,
        ),
        forall|j: int|
            0 <= j < c.len() && j != idx && #[trigger] c[j] is SourceFile ==> content_matches(
                rec,
                name_bytes(c[j]->SourceFile_0.path@),
                c[j]->SourceFile_0.contents_hash.0,
            ),
    ensures
        stale_docs(c, rec) == (if idx < c.len() {
            seq![idx as usize]
        } else {
            Seq::<usize>::empty()
        }),
    decreases c.len(),
{
    if c.len() > 0 {
        let rest = c.drop_last();
        assert forall|j: int| 0 <= j < rest.len() && j != idx && #[trigger] rest[j] is SourceFile implies content_matches(
            rec,
            name_bytes(rest[j]->SourceFile_0.path@),
            rest[j]->SourceFile_0.contents_hash.0,
        ) by {
            assert(rest[j] == c[j]);
        }
        if idx < rest.len() {
            assert(rest[idx] == c[idx]);
        }
        lemma_stale_only(rest, rec, idx);
        let last = c.len() - 1;
        assert(c.last() == c[last]);
        if idx == last {
            assert(Seq::<usize>::empty().push(idx as usize) =~= seq![idx as usize]);
        }
    }
}

/// Renaming one document, content kept: the walk renders that document and
/// no other, and rebuilds the index exactly when the structural hash
/// changed, which, barring a collision of digests, it did.
pub proof fn law_rename_document(before: DirObject, after: DirObject, idx: int)
    requires
        before.children@.len() == after.children@.len(),
        0 <= idx < after.children@.len(),
        forall|j: int| 0 <= j < after.children@.len() && j != idx ==> before.children@[j] == after.children@[j],
        before.children@[idx] is SourceFile,
        after.children@[idx] is SourceFile,
        no_document_named(before.children@, name_bytes(after.children@[idx]->SourceFile_0.path@)),
        doc_names_distinct(before.children@),
        after.merkle_hash != before.merkle_hash,
    ensures
        visit(after, Some(record_of(before))) matches Some(w) && w.to_render == seq![idx as usize]
            && w.rebuild_index == (after.children_hash != before.children_hash),
        after.children_hash.0 == structural_hash(after.children@) && before.children_hash.0
            == structural_hash(before.children@) && (crate::object::structural_writes(before.children@)
            != crate::object::structural_writes(after.children@) ==> structural_hash(before.children@)
            != structural_hash(after.children@)) ==> visit(after, Some(record_of(before)))->0.rebuild_index,
{
    let rec = Some(record_of(before));
    let c = after.children@;
    let f = c[idx]->SourceFile_0;
    lemma_no_entry(before.children@, name_bytes(f.path@));
    assert forall|j: int| 0 <= j < c.len() && j != idx && #[trigger] c[j] is SourceFile implies content_matches(
        rec,
        name_bytes(c[j]->SourceFile_0.path@),
        c[j]->SourceFile_0.contents_hash.0,
    ) by {
        assert(before.children@[j] == c[j]);
        lemma_recorded_own_entry(before.children@, j);
    }
    lemma_stale_only(c, rec, idx);
    assert(before.children@[idx] is SourceFile);
    law_rename_changes_structure(before, after, idx);
}

} // verus!
