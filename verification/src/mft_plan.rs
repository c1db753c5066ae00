//! Which records of a volume's file table lie below a scan root, and the
//! path of each: the plan a direct volume scan follows.
use vstd::prelude::*;
use crate::app_paths::{join, join_path};
use crate::file_info::DirectoryNode;

verus! {

/// One record of a volume's file table: its id, its parent directory's id,
/// its name, whether it is a directory, and (for a file) its size.
pub struct MftRecord {
    pub file_id: u64,
    pub parent_file_id: u64,
    pub name: String,
    pub is_dir: bool,
    pub size: u64,
}

/// A record below the scan root, by its index among the records, with its
/// path.
pub struct PlannedEntry {
    pub record: usize,
    pub path: String,
}

/// The id is the root's or that of a planned entry.
pub open spec fn is_planned(id: u64, root_id: u64, recs: Seq<MftRecord>, es: Seq<PlannedEntry>) -> bool {
    id == root_id || exists|i: int| 0 <= i < es.len() && recs[es[i].record as int].file_id == id
}

/// The id is the root's or that of a planned directory.
pub open spec fn is_planned_dir(id: u64, root_id: u64, recs: Seq<MftRecord>, es: Seq<PlannedEntry>) -> bool {
    id == root_id || exists|i: int|
        0 <= i < es.len() && recs[es[i].record as int].file_id == id && recs[es[i].record as int].is_dir
}

/// Entry `i` names a record other than the root, and its path is its name
/// joined to the root's path (its parent being the root) or to the path of
/// an earlier planned directory that is its parent.
pub open spec fn entry_placed(recs: Seq<MftRecord>, es: Seq<PlannedEntry>, i: int, root_id: u64, root_path: Seq<char>) -> bool {
    let r = recs[es[i].record as int];
    &&& es[i].record < recs.len()
    &&& r.file_id != root_id
    &&& (r.parent_file_id == root_id && es[i].path@ == join_path(root_path, r.name@)) || exists|p: int|
        0 <= p < i && recs[es[p].record as int].file_id == r.parent_file_id && recs[es[p].record as int].is_dir
            && es[i].path@ == join_path(es[p].path@, r.name@)
}

/// A plan of the records below the root: every entry placed, no id twice,
/// and every record whose parent is the root or a planned directory has
/// its id planned.
pub open spec fn plan_ok(recs: Seq<MftRecord>, es: Seq<PlannedEntry>, root_id: u64, root_path: Seq<char>) -> bool {
    &&& forall|i: int| 0 <= i < es.len() ==> #[trigger] entry_placed(recs, es, i, root_id, root_path)
    &&& forall|i: int, j: int|
        0 <= i < j < es.len() ==> recs[(#[trigger] es[i]).record as int].file_id != recs[(#[trigger] es[j]).record as int].file_id
    &&& forall|j: int|
        0 <= j < recs.len() && #[trigger] is_planned_dir(recs[j].parent_file_id, root_id, recs, es) ==> is_planned(
            recs[j].file_id,
            root_id,
            recs,
            es,
        )
}

/// Number of the first `n` records whose id is not among `vis`.
pub open spec fn unseen_count(recs: Seq<MftRecord>, vis: Seq<u64>, n: int) -> nat
    decreases n,
{
    if n <= 0 || n > recs.len() {
        0
    } else {
        unseen_count(recs, vis, n - 1) + (if vis.contains(recs[n - 1].file_id) { 0nat } else { 1nat })
    }
}

proof fn lemma_unseen_push(recs: Seq<MftRecord>, vis: Seq<u64>, x: u64, n: int, j0: int)
    requires
        0 <= n <= recs.len(),
    ensures
        unseen_count(recs, vis.push(x), n) <= unseen_count(recs, vis, n),
        0 <= j0 < n && recs[j0].file_id == x && !vis.contains(x) ==> unseen_count(recs, vis.push(x), n)
            < unseen_count(recs, vis, n),
    decreases n,
{
    if n > 0 {
        lemma_unseen_push(recs, vis, x, n - 1, j0);
        let y = recs[n - 1].file_id;
        if vis.contains(y) {
            let k = choose|k: int| 0 <= k < vis.len() && vis[k] == y;
            assert(vis.push(x)[k] == y);
        }
        if y == x {
            assert(vis.push(x)[vis.len() as int] == x);
        }
        if !vis.contains(y) && y != x {
            assert forall|k: int| 0 <= k < vis.push(x).len() implies vis.push(x)[k] != y by {
                if k < vis.len() {
                    assert(vis[k] != y);
                }
            }
        }
    }
}

fn contains_id(v: &Vec<u64>, x: u64) -> (r: bool)
    ensures
        r == v@.contains(x),
{
    let mut i: usize = 0;
    while i < v.len()
        invariant
            i <= v.len(),
            forall|k: int| 0 <= k < i ==> v@[k] != x,
        decreases v.len() - i,
    {
        if v[i] == x {
            return true;
        }
        i = i + 1;
    }
    false
}


/// `vis` lists the root's id, then the id of each entry, in order.
pub open spec fn ids_listed(recs: Seq<MftRecord>, es: Seq<PlannedEntry>, vis: Seq<u64>, root_id: u64) -> bool {
    &&& vis.len() == es.len() + 1
    &&& vis[0] == root_id
    &&& forall|i: int| 0 <= i < es.len() ==> (#[trigger] es[i]).record < recs.len() && vis[i + 1] == recs[es[i].record as int].file_id
}

pub open spec fn all_distinct(vis: Seq<u64>) -> bool {
    forall|i: int, j: int| 0 <= i < j < vis.len() ==> vis[i] != vis[j]
}

/// Each waiting directory is the root or a planned directory, with its path.
pub open spec fn pending_ok(
    pend: Seq<(u64, String)>,
    recs: Seq<MftRecord>,
    es: Seq<PlannedEntry>,
    root_id: u64,
    root_path: Seq<char>,
) -> bool {
    forall|q: int|
        0 <= q < pend.len() ==> ((#[trigger] pend[q]).0 == root_id && pend[q].1@ == root_path) || exists|i: int|
            0 <= i < es.len() && recs[es[i].record as int].is_dir && recs[es[i].record as int].file_id == pend[q].0
                && es[i].path@ == pend[q].1@
}

/// Every record whose parent is a finished directory has its id listed.
pub open spec fn done_ok(done: Seq<u64>, recs: Seq<MftRecord>, vis: Seq<u64>) -> bool {
    forall|t: int, j: int|
        0 <= t < done.len() && 0 <= j < recs.len() && recs[j].parent_file_id == #[trigger] done[t] ==> vis.contains(
            #[trigger] recs[j].file_id,
        )
}

pub open spec fn waiting(id: u64, pend: Seq<(u64, String)>, done: Seq<u64>) -> bool {
    (exists|q: int| 0 <= q < pend.len() && #[trigger] pend[q].0 == id) || done.contains(id)
}

/// The root and every planned directory are waiting or finished.
pub open spec fn covered(
    pend: Seq<(u64, String)>,
    done: Seq<u64>,
    recs: Seq<MftRecord>,
    es: Seq<PlannedEntry>,
    root_id: u64,
) -> bool {
    &&& waiting(root_id, pend, done)
    &&& forall|i: int|
        0 <= i < es.len() && recs[(#[trigger] es[i]).record as int].is_dir ==> waiting(recs[es[i].record as int].file_id, pend, done)
}

proof fn lemma_ids_listed_push(
    recs: Seq<MftRecord>,
    es: Seq<PlannedEntry>,
    vis: Seq<u64>,
    root_id: u64,
    e: PlannedEntry,
    x: u64,
)
    requires
        ids_listed(recs, es, vis, root_id),
        e.record < recs.len(),
        recs[e.record as int].file_id == x,
    ensures
        ids_listed(recs, es.push(e), vis.push(x), root_id),
{
    let es2 = es.push(e);
    let vis2 = vis.push(x);
    assert forall|i: int| 0 <= i < es2.len() implies (#[trigger] es2[i]).record < recs.len() && vis2[i + 1]
        == recs[es2[i].record as int].file_id by {
        if i < es.len() {
            assert(es2[i] == es[i]);
            assert(vis2[i + 1] == vis[i + 1]);
            assert(vis[i + 1] == recs[es[i].record as int].file_id);
        } else {
            assert(es2[i] == e);
            assert(vis2[i + 1] == x);
        }
    }
    assert(vis2.len() == es2.len() + 1);
    assert(vis2[0] == root_id);
}

proof fn lemma_listed_planned(recs: Seq<MftRecord>, es: Seq<PlannedEntry>, vis: Seq<u64>, root_id: u64, x: u64)
    requires
        ids_listed(recs, es, vis, root_id),
        vis.contains(x),
    ensures
        is_planned(x, root_id, recs, es),
{
    let k = choose|k: int| 0 <= k < vis.len() && vis[k] == x;
    if k > 0 {
        assert(vis[(k - 1) + 1] == recs[es[k - 1].record as int].file_id);
    }
}

/// The records below the root `root_id` (whose path is `root_path`), each
/// with its path, directory by directory from the root down; a record
/// whose id is already planned is passed over, so each id is planned once.
pub fn build_descendant_plan(records: &Vec<MftRecord>, root_id: u64, root_path: &str) -> (r: Vec<PlannedEntry>)
    ensures
        plan_ok(records@, r@, root_id, root_path@),
{
    let ghost recs = records@;
    let mut entries: Vec<PlannedEntry> = Vec::new();
    let mut visited: Vec<u64> = Vec::new();
    visited.push(root_id);
    let mut pending: Vec<(u64, String)> = Vec::new();
    pending.push((root_id, crate::text::owned(root_path)));
    let ghost mut done: Seq<u64> = Seq::empty();
    proof {
        assert(pending@[0].0 == root_id);
    }
    while pending.len() > 0
        invariant
            recs == records@,
            ids_listed(recs, entries@, visited@, root_id),
            all_distinct(visited@),
            forall|i: int| 0 <= i < entries@.len() ==> #[trigger] entry_placed(recs, entries@, i, root_id, root_path@),
            pending_ok(pending@, recs, entries@, root_id, root_path@),
            done_ok(done, recs, visited@),
            covered(pending@, done, recs, entries@, root_id),
        decreases unseen_count(recs, visited@, recs.len() as int), pending.len(),
    {
        let ghost c0 = unseen_count(recs, visited@, recs.len() as int);
        let ghost p0 = pending.len();
        let ghost pend0 = pending@;
        let (pid, ppath) = pending.pop().unwrap();
        proof {
            assert(pend0[pend0.len() - 1] == (pid, ppath));
        }
        proof {
            assert(pending@.len() == p0 - 1);
            assert forall|q: int| 0 <= q < pend0.len() - 1 implies #[trigger] pending@[q] == pend0[q] by {}
            assert forall|id: u64| waiting(id, pend0, done) implies waiting(id, pending@, done) || id == pid by {
                if !done.contains(id) {
                    let q = choose|q: int| 0 <= q < pend0.len() && #[trigger] pend0[q].0 == id;
                    if q < pend0.len() - 1 {
                        assert(pending@[q] == pend0[q]);
                    }
                }
            }
        }
        let mut took = false;
        let mut j: usize = 0;
        while j < records.len()
            invariant
                recs == records@,
                j <= recs.len(),
                ids_listed(recs, entries@, visited@, root_id),
                all_distinct(visited@),
                forall|i: int| 0 <= i < entries@.len() ==> #[trigger] entry_placed(recs, entries@, i, root_id, root_path@),
                (pid == root_id && ppath@ == root_path@) || exists|i: int|
                    0 <= i < entries@.len() && recs[entries@[i].record as int].is_dir && recs[entries@[i].record as int].file_id
                        == pid && entries@[i].path@ == ppath@,
                pending_ok(pending@, recs, entries@, root_id, root_path@),
                done_ok(done, recs, visited@),
                forall|k: int| 0 <= k < j && recs[k].parent_file_id == pid ==> visited@.contains(#[trigger] recs[k].file_id),
                unseen_count(recs, visited@, recs.len() as int) <= c0,
                took ==> unseen_count(recs, visited@, recs.len() as int) < c0,
                !took ==> pending.len() + 1 == p0,
                forall|q: int| 0 <= q < pend0.len() - 1 ==> #[trigger] pending@[q] == pend0[q],
                pending.len() >= pend0.len() - 1,
                pend0.len() == p0,
                pend0[pend0.len() - 1].0 == pid,
                waiting(root_id, pending@, done) || root_id == pid,
                forall|i: int|
                    0 <= i < entries@.len() && recs[(#[trigger] entries@[i]).record as int].is_dir ==> waiting(
                        recs[entries@[i].record as int].file_id,
                        pending@,
                        done,
                    ) || recs[entries@[i].record as int].file_id == pid,
            decreases recs.len() - j,
        {
            if records[j].parent_file_id == pid {
                let id = records[j].file_id;
                if !contains_id(&visited, id) {
                    let path = join(ppath.as_str(), records[j].name.as_str());
                    let ghost vis0 = visited@;
                    let ghost es0 = entries@;
                    proof {
                        lemma_unseen_push(recs, vis0, id, recs.len() as int, j as int);
                    }
                    visited.push(id);
                    entries.push(PlannedEntry { record: j, path });
                    proof {
                        let es = entries@;
                        let n = es.len() - 1;
                        assert(es[n].record == j);
                        if !(pid == root_id && ppath@ == root_path@) {
                            let i = choose|i: int|
                                0 <= i < es0.len() && recs[es0[i].record as int].is_dir && recs[es0[i].record as int].file_id
                                    == pid && es0[i].path@ == ppath@;
                            assert(es[i] == es0[i]);
                        }
                        assert(id != root_id) by {
                            assert(vis0[0] == root_id);
                        }
                        assert(entry_placed(recs, es, n, root_id, root_path@));
                        assert forall|i: int| 0 <= i < es.len() implies #[trigger] entry_placed(recs, es, i, root_id, root_path@) by {
                            if i < n {
                                assert(entry_placed(recs, es0, i, root_id, root_path@));
                                assert(es[i] == es0[i]);
                                if !(recs[es[i].record as int].parent_file_id == root_id && es[i].path@ == join_path(root_path@, recs[es[i].record as int].name@)) {
                                    let p = choose|p: int|
                                        0 <= p < i && recs[es0[p].record as int].file_id == recs[es0[i].record as int].parent_file_id
                                            && recs[es0[p].record as int].is_dir && es0[i].path@ == join_path(es0[p].path@, recs[es0[i].record as int].name@);
                                    assert(es[p] == es0[p]);
                                }
                            }
                        }
                        assert(es =~= es0.push(es[n]));
                        assert(visited@ =~= vis0.push(id));
                        lemma_ids_listed_push(recs, es0, vis0, root_id, es[n], id);
                        assert forall|a: int, b: int| 0 <= a < b < visited@.len() implies visited@[a] != visited@[b] by {
                            if b == vis0.len() {
                                assert(vis0[a] == visited@[a]);
                            }
                        }
                        assert forall|y: u64| vis0.contains(y) implies visited@.contains(y) by {
                            let k = choose|k: int| 0 <= k < vis0.len() && vis0[k] == y;
                            assert(visited@[k] == y);
                        }
                        assert(visited@[vis0.len() as int] == id);
                        assert forall|q: int| 0 <= q < pending@.len() implies ((#[trigger] pending@[q]).0 == root_id
                            && pending@[q].1@ == root_path@) || exists|i: int|
                            0 <= i < es.len() && recs[es[i].record as int].is_dir && recs[es[i].record as int].file_id
                                == pending@[q].0 && es[i].path@ == pending@[q].1@ by {
                            if !(pending@[q].0 == root_id && pending@[q].1@ == root_path@) {
                                let i = choose|i: int|
                                    0 <= i < es0.len() && recs[es0[i].record as int].is_dir && recs[es0[i].record as int].file_id
                                        == pending@[q].0 && es0[i].path@ == pending@[q].1@;
                                assert(es[i] == es0[i]);
                            }
                        }
                    }
                    if records[j].is_dir {
                        let ghost pend1 = pending@;
                        pending.push((id, entries[entries.len() - 1].path.clone()));
                        proof {
                            let es = entries@;
                            let n = es.len() - 1;
                            assert forall|q: int| 0 <= q < pending@.len() implies ((#[trigger] pending@[q]).0 == root_id
                                && pending@[q].1@ == root_path@) || exists|i: int|
                                0 <= i < es.len() && recs[es[i].record as int].is_dir && recs[es[i].record as int].file_id
                                    == pending@[q].0 && es[i].path@ == pending@[q].1@ by {
                                if q < pend1.len() {
                                    assert(pending@[q] == pend1[q]);
                                } else {
                                    assert(recs[es[n].record as int].file_id == pending@[q].0);
                                }
                            }
                            assert forall|x: u64| waiting(x, pend1, done) implies waiting(x, pending@, done) by {
                                if !done.contains(x) {
                                    let q = choose|q: int| 0 <= q < pend1.len() && #[trigger] pend1[q].0 == x;
                                    assert(pending@[q] == pend1[q]);
                                }
                            }
                            assert(pending@[pending@.len() - 1].0 == recs[es[n].record as int].file_id);
                            assert(waiting(recs[es[n].record as int].file_id, pending@, done));
                        }
                    }
                    took = true;
                }
            }
            j = j + 1;
        }
        proof {
            let d0 = done;
            done = done.push(pid);
            assert(done[d0.len() as int] == pid);
            assert forall|x: u64| waiting(x, pending@, d0) implies waiting(x, pending@, done) by {
                if d0.contains(x) {
                    let t = choose|t: int| 0 <= t < d0.len() && d0[t] == x;
                    assert(done[t] == x);
                }
            }
            assert forall|t: int, k: int|
                0 <= t < done.len() && 0 <= k < recs.len() && recs[k].parent_file_id == #[trigger] done[t] implies visited@.contains(
                #[trigger] recs[k].file_id,
            ) by {
                if t < d0.len() {
                    assert(done[t] == d0[t]);
                }
            }
            assert(waiting(pid, pending@, done));
        }
    }
    proof {
        let es = entries@;
        let vis = visited@;
        assert forall|x: u64| #[trigger] waiting(x, pending@, done) implies done.contains(x) by {}
        assert forall|i: int, k: int| 0 <= i < k < es.len() implies recs[(#[trigger] es[i]).record as int].file_id
            != recs[(#[trigger] es[k]).record as int].file_id by {
            assert(vis[i + 1] == recs[es[i].record as int].file_id);
            assert(vis[k + 1] == recs[es[k].record as int].file_id);
        }
        assert forall|k: int|
            0 <= k < recs.len() && #[trigger] is_planned_dir(recs[k].parent_file_id, root_id, recs, es) implies is_planned(
            recs[k].file_id,
            root_id,
            recs,
            es,
        ) by {
            let pidk = recs[k].parent_file_id;
            if pidk != root_id {
                let i = choose|i: int| 0 <= i < es.len() && recs[es[i].record as int].file_id == pidk && recs[es[i].record as int].is_dir;
                assert(waiting(recs[es[i].record as int].file_id, pending@, done));
            } else {
                assert(waiting(root_id, pending@, done));
            }
            assert(done.contains(pidk));
            let t = choose|t: int| 0 <= t < done.len() && done[t] == pidk;
            assert(visited@.contains(recs[k].file_id));
            lemma_listed_planned(recs, es, vis, root_id, recs[k].file_id);
        }
    }
    entries
}


/// The planned directories, in plan order.
pub open spec fn dir_entries(recs: Seq<MftRecord>, es: Seq<PlannedEntry>) -> Seq<PlannedEntry> {
    es.filter(|e: PlannedEntry| recs[e.record as int].is_dir)
}

/// The planned files, in plan order.
pub open spec fn file_entries(recs: Seq<MftRecord>, es: Seq<PlannedEntry>) -> Seq<PlannedEntry> {
    es.filter(|e: PlannedEntry| !recs[e.record as int].is_dir)
}

/// The node a planned directory starts as: its path and name, no totals
/// yet, no children, its id.
pub open spec fn starts_as(n: DirectoryNode, e: PlannedEntry, r: MftRecord) -> bool {
    &&& n.path@ == e.path@
    &&& n.name@ == r.name@
    &&& n.size == 0
    &&& n.file_count == 0
    &&& n.dir_count == 1
    &&& n.children@.len() == 0
    &&& !n.has_children
    &&& !n.is_symlink
    &&& n.link_target is None
    &&& n.safety is None
    &&& n.modified_time is None
    &&& n.file_id == Some(r.file_id)
}

/// What a direct scan finds below its root from the volume's records: the
/// plan, a node for each planned directory and the path and size of each
/// planned file, both in plan order.
pub struct RecordWalk {
    pub plan: Vec<PlannedEntry>,
    pub dirs: Vec<DirectoryNode>,
    pub files: Vec<(String, u64)>,
}

/// The walk below `root_id` (see [`build_descendant_plan`]): its
/// directories and files, ready to be assembled into a scan result.
pub fn walk_from_records(records: &Vec<MftRecord>, root_id: u64, root_path: &str) -> (r: RecordWalk)
    ensures
        plan_ok(records@, r.plan@, root_id, root_path@),
        r.dirs@.len() == dir_entries(records@, r.plan@).len(),
        forall|k: int| 0 <= k < r.dirs@.len() ==> #[trigger] starts_as(
            r.dirs@[k],
            dir_entries(records@, r.plan@)[k],
            records@[dir_entries(records@, r.plan@)[k].record as int],
        ),
        r.files@.len() == file_entries(records@, r.plan@).len(),
        forall|k: int| 0 <= k < r.files@.len() ==> (#[trigger] r.files@[k]).0@ == file_entries(records@, r.plan@)[k].path@
            && r.files@[k].1 == records@[file_entries(records@, r.plan@)[k].record as int].size,
{
    let plan = build_descendant_plan(records, root_id, root_path);
    let ghost recs = records@;
    let ghost es = plan@;
    let ghost dpred = |e: PlannedEntry| recs[e.record as int].is_dir;
    let ghost fpred = |e: PlannedEntry| !recs[e.record as int].is_dir;
    let mut dirs: Vec<DirectoryNode> = Vec::new();
    let mut files: Vec<(String, u64)> = Vec::new();
    let mut i: usize = 0;
    while i < plan.len()
        invariant
            i <= plan.len(),
            es == plan@,
            recs == records@,
            plan_ok(recs, es, root_id, root_path@),
            dpred == (|e: PlannedEntry| recs[e.record as int].is_dir),
            fpred == (|e: PlannedEntry| !recs[e.record as int].is_dir),
            dirs@.len() == es.take(i as int).filter(dpred).len(),
            forall|k: int| 0 <= k < dirs@.len() ==> #[trigger] starts_as(
                dirs@[k],
                es.take(i as int).filter(dpred)[k],
                recs[es.take(i as int).filter(dpred)[k].record as int],
            ),
            files@.len() == es.take(i as int).filter(fpred).len(),
            forall|k: int| 0 <= k < files@.len() ==> (#[trigger] files@[k]).0@ == es.take(i as int).filter(fpred)[k].path@
                && files@[k].1 == recs[es.take(i as int).filter(fpred)[k].record as int].size,
        decreases plan.len() - i,
    {
        proof {
            assert(entry_placed(recs, es, i as int, root_id, root_path@));
            assert(es.take(i + 1).drop_last() =~= es.take(i as int));
            assert(es.take(i + 1).last() == es[i as int]);
            reveal_with_fuel(Seq::filter, 1);
        }
        let e = &plan[i];
        let r = &records[e.record];
        if r.is_dir {
            let ghost d0 = dirs@;
            dirs.push(DirectoryNode {
                path: e.path.clone(),
                name: r.name.clone(),
                size: 0,
                file_count: 0,
                dir_count: 1,
                children: Vec::new(),
                has_children: false,
                is_symlink: false,
                link_target: None,
                safety: None,
                modified_time: None,
                file_id: Some(r.file_id),
            });
            proof {
                assert forall|k: int| 0 <= k < dirs@.len() implies #[trigger] starts_as(
                    dirs@[k],
                    es.take(i + 1).filter(dpred)[k],
                    recs[es.take(i + 1).filter(dpred)[k].record as int],
                ) by {
                    if k < d0.len() {
                        assert(dirs@[k] == d0[k]);
                    }
                }
            }
        } else {
            let ghost f0 = files@;
            files.push((e.path.clone(), r.size));
            proof {
                assert forall|k: int| 0 <= k < files@.len() implies (#[trigger] files@[k]).0@ == es.take(i + 1).filter(
                    fpred,
                )[k].path@ && files@[k].1 == recs[es.take(i + 1).filter(fpred)[k].record as int].size by {
                    if k < f0.len() {
                        assert(files@[k] == f0[k]);
                    }
                }
            }
        }
        i = i + 1;
    }
    assert(es.take(plan.len() as int) =~= es);
    RecordWalk { plan, dirs, files }
}

} // verus!
