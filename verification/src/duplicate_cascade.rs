//! The order in which a duplicate search compares contents: each bucket of
//! equal-sized files is split by a hash of its first bytes, each part by a
//! hash of samples, each of those by a hash of the whole file, and what is
//! left together is a group. The hashing itself is outside work; this is
//! the bookkeeping between the hashes, one step per set of hashes.
use vstd::prelude::*;
use crate::duplicates::{
    first_hashes, hash_groups, hash_groups_upto, law_hash_groups_share_one_hash, lemma_members_upto, members_upto,
    split_by_hash,
};

verus! {

/// Which hash a set of candidates is compared by next.
#[derive(Debug, Clone, Copy, PartialEq, Eq, Structural)]
pub enum HashStage {
    Quick,
    Partial,
    Full,
}

/// The stage after `s` (the full hash is the last).
pub open spec fn next_stage(s: HashStage) -> HashStage {
    match s {
        HashStage::Quick => HashStage::Partial,
        _ => HashStage::Full,
    }
}

/// Candidates (positions in the search's file list) of one size, still
/// together, to be compared by a hash.
pub struct CascadeTask {
    pub stage: HashStage,
    pub size: u64,
    pub members: Vec<usize>,
}

/// A task as plain values.
pub open spec fn task_view(t: CascadeTask) -> (HashStage, u64, Seq<usize>) {
    (t.stage, t.size, t.members@)
}

/// The candidates of a split part: the members at the part's positions.
pub open spec fn part_members(members: Seq<usize>, part: Seq<int>) -> Seq<usize> {
    Seq::new(part.len(), |q: int| members[part[q]])
}

/// The tasks a split of `t` by `hashes` leaves for the next stage, the
/// first part last (it is taken next).
pub open spec fn next_tasks(t: (HashStage, u64, Seq<usize>), hashes: Seq<Option<u64>>) -> Seq<(HashStage, u64, Seq<usize>)> {
    let parts = hash_groups(hashes);
    Seq::new(parts.len(), |k: int| (next_stage(t.0), t.1, part_members(t.2, parts[parts.len() - 1 - k])))
}

/// The groups a split of a full-hash task by `hashes` yields, in order.
pub open spec fn final_groups(t: (HashStage, u64, Seq<usize>), hashes: Seq<Option<u64>>) -> Seq<(u64, Seq<usize>)> {
    let parts = hash_groups(hashes);
    Seq::new(parts.len(), |k: int| (t.1, part_members(t.2, parts[k])))
}

proof fn lemma_first_hashes_distinct(hashes: Seq<Option<u64>>, n: int)
    requires
        0 <= n <= hashes.len(),
    ensures
        forall|a: int, b: int| 0 <= a < b < first_hashes(hashes, n).len() ==> #[trigger] first_hashes(hashes, n)[a]
            != #[trigger] first_hashes(hashes, n)[b],
    decreases n,
{
    if n > 0 {
        lemma_first_hashes_distinct(hashes, n - 1);
        let prev = first_hashes(hashes, n - 1);
        match hashes[n - 1] {
            Some(h) => {
                if !prev.contains(h) {
                    let cur = prev.push(h);
                    assert forall|a: int, b: int| 0 <= a < b < cur.len() implies #[trigger] cur[a] != #[trigger] cur[b] by {
                        if b == cur.len() - 1 {
                            assert(prev[a] == cur[a]);
                        } else {
                            assert(prev[a] == cur[a] && prev[b] == cur[b]);
                        }
                    }
                }
            },
            None => {},
        }
    }
}

/// Every position of the first `k` hash groups carries one of the first
/// `k` distinct hashes, and no position is in two of those groups.
proof fn lemma_hash_groups_disjoint(hashes: Seq<Option<u64>>, k: int)
    requires
        0 <= k <= first_hashes(hashes, hashes.len() as int).len(),
    ensures
        forall|g: int, q: int| 0 <= g < hash_groups_upto(hashes, k).len() && 0 <= q < hash_groups_upto(hashes, k)[g].len()
            ==> exists|i: int| 0 <= i < k && hashes[#[trigger] hash_groups_upto(hashes, k)[g][q]] == Some(
            first_hashes(hashes, hashes.len() as int)[i],
        ),
        forall|g1: int, g2: int, q1: int, q2: int|
            0 <= g1 < g2 < hash_groups_upto(hashes, k).len() && 0 <= q1 < hash_groups_upto(hashes, k)[g1].len() && 0 <= q2
                < hash_groups_upto(hashes, k)[g2].len() ==> #[trigger] hash_groups_upto(hashes, k)[g1][q1]
                != #[trigger] hash_groups_upto(hashes, k)[g2][q2],
    decreases k,
{
    let fh = first_hashes(hashes, hashes.len() as int);
    if k > 0 {
        lemma_hash_groups_disjoint(hashes, k - 1);
        lemma_first_hashes_distinct(hashes, hashes.len() as int);
        let h = fh[k - 1];
        let m = members_upto(hashes, h, hashes.len() as int);
        lemma_members_upto(hashes, h, hashes.len() as int);
        let prev = hash_groups_upto(hashes, k - 1);
        if m.len() >= 2 {
            let cur = prev.push(m);
            assert(hash_groups_upto(hashes, k) == cur);
            assert forall|g: int, q: int| 0 <= g < cur.len() && 0 <= q < cur[g].len() implies exists|i: int|
                0 <= i < k && hashes[#[trigger] cur[g][q]] == Some(fh[i]) by {
                if g < prev.len() {
                    assert(cur[g] == prev[g]);
                    let i = choose|i: int| 0 <= i < k - 1 && hashes[prev[g][q]] == Some(fh[i]);
                } else {
                    assert(cur[g] == m);
                    assert(hashes[m[q]] == Some(fh[k - 1]));
                }
            }
            assert forall|g1: int, g2: int, q1: int, q2: int|
                0 <= g1 < g2 < cur.len() && 0 <= q1 < cur[g1].len() && 0 <= q2 < cur[g2].len() implies #[trigger] cur[g1][q1]
                    != #[trigger] cur[g2][q2] by {
                assert(cur[g1] == prev[g1]);
                if g2 < prev.len() {
                    assert(cur[g2] == prev[g2]);
                } else {
                    assert(cur[g2] == m);
                    let i = choose|i: int| 0 <= i < k - 1 && hashes[prev[g1][q1]] == Some(fh[i]);
                    assert(hashes[m[q2]] == Some(fh[k - 1]));
                    assert(fh[i] != fh[k - 1]);
                }
            }
        } else {
            assert(hash_groups_upto(hashes, k) == prev);
            assert forall|g: int, q: int| 0 <= g < prev.len() && 0 <= q < prev[g].len() implies exists|i: int|
                0 <= i < k && hashes[#[trigger] prev[g][q]] == Some(fh[i]) by {
                let i = choose|i: int| 0 <= i < k - 1 && hashes[prev[g][q]] == Some(fh[i]);
            }
        }
    }
}

/// A split by hash keeps candidates apart: when a task's members are
/// pairwise different, no member lands in two parts, nor twice in one.
pub proof fn law_split_keeps_members_apart(members: Seq<usize>, hashes: Seq<Option<u64>>)
    requires
        hashes.len() == members.len(),
        forall|a: int, b: int| 0 <= a < b < members.len() ==> #[trigger] members[a] != #[trigger] members[b],
    ensures
        forall|g1: int, g2: int, q1: int, q2: int|
            0 <= g1 < hash_groups(hashes).len() && 0 <= g2 < hash_groups(hashes).len() && 0 <= q1
                < hash_groups(hashes)[g1].len() && 0 <= q2 < hash_groups(hashes)[g2].len() && (g1 != g2 || q1 != q2)
                ==> #[trigger] part_members(members, hash_groups(hashes)[g1])[q1] != #[trigger] part_members(
                members,
                hash_groups(hashes)[g2],
            )[q2],
{
    let hg = hash_groups(hashes);
    let k = first_hashes(hashes, hashes.len() as int).len() as int;
    lemma_hash_groups_disjoint(hashes, k);
    assert forall|g1: int, g2: int, q1: int, q2: int|
        0 <= g1 < hg.len() && 0 <= g2 < hg.len() && 0 <= q1 < hg[g1].len() && 0 <= q2 < hg[g2].len() && (g1 != g2
            || q1 != q2) implies #[trigger] part_members(members, hg[g1])[q1] != #[trigger] part_members(members, hg[g2])[q2] by {
        law_hash_groups_share_one_hash(hashes, g1);
        law_hash_groups_share_one_hash(hashes, g2);
        let h1 = choose|h: u64| #[trigger] crate::duplicates::all_hashed_as(hashes, hg[g1], h);
        let h2 = choose|h: u64| #[trigger] crate::duplicates::all_hashed_as(hashes, hg[g2], h);
        let p1 = hg[g1][q1];
        let p2 = hg[g2][q2];
        assert(0 <= p1 < members.len() && 0 <= p2 < members.len());
        if g1 == g2 {
            assert(p1 != p2) by {
                if q1 < q2 {
                    assert(hg[g1][q1] < hg[g1][q2]);
                } else {
                    assert(hg[g1][q2] < hg[g1][q1]);
                }
            }
        } else if g1 < g2 {
            assert(p1 != p2);
        } else {
            assert(hg[g2][q2] != hg[g1][q1]);
        }
        if p1 < p2 {
            assert(members[p1] != members[p2]);
        } else {
            assert(members[p2] != members[p1]);
        }
    }
}

/// The search's progress: the tasks still to do (the last one next) and the
/// groups found, each with its file size.
pub struct DuplicateCascade {
    pending: Vec<CascadeTask>,
    groups: Vec<(u64, Vec<usize>)>,
}

impl DuplicateCascade {
    pub closed spec fn pending_view(self) -> Seq<(HashStage, u64, Seq<usize>)> {
        Seq::new(self.pending@.len(), |k: int| task_view(self.pending@[k]))
    }

    pub closed spec fn groups_view(self) -> Seq<(u64, Seq<usize>)> {
        Seq::new(self.groups@.len(), |k: int| (self.groups@[k].0, self.groups@[k].1@))
    }

    /// A search over buckets of equal-sized candidates: each bucket is
    /// compared by its quick hash first, the first bucket first.
    pub fn new(buckets: Vec<(u64, Vec<usize>)>) -> (r: DuplicateCascade)
        ensures
            r.groups_view().len() == 0,
            r.pending_view() == Seq::new(
                buckets@.len(),
                |k: int| (HashStage::Quick, buckets@[buckets@.len() - 1 - k].0, buckets@[buckets@.len() - 1 - k].1@),
            ),
    {
        let ghost bv = buckets@;
        let mut rest = buckets;
        let mut pending: Vec<CascadeTask> = Vec::new();
        while rest.len() > 0
            invariant
                rest@ == bv.take(rest@.len() as int),
                pending@.len() + rest@.len() == bv.len(),
                forall|k: int| 0 <= k < pending@.len() ==> #[trigger] task_view(pending@[k]) == (
                    HashStage::Quick,
                    bv[bv.len() - 1 - k].0,
                    bv[bv.len() - 1 - k].1@,
                ),
            decreases rest.len(),
        {
            let ghost r0 = rest@;
            let (size, members) = rest.pop().unwrap();
            proof {
                assert(rest@ =~= bv.take(rest@.len() as int));
                assert((size, members) == bv[r0.len() - 1]);
            }
            pending.push(CascadeTask { stage: HashStage::Quick, size, members });
        }
        let r = DuplicateCascade { pending, groups: Vec::new() };
        assert(r.pending_view() =~= Seq::new(
            bv.len(),
            |k: int| (HashStage::Quick, bv[bv.len() - 1 - k].0, bv[bv.len() - 1 - k].1@),
        ));
        assert(r.groups_view() =~= Seq::<(u64, Seq<usize>)>::empty());
        r
    }

    /// The task to hash next, if any.
    pub fn next_task(&self) -> (r: Option<&CascadeTask>)
        ensures
            r is None <==> self.pending_view().len() == 0,
            r matches Some(t) ==> task_view(*t) == self.pending_view().last(),
    {
        if self.pending.len() == 0 {
            None
        } else {
            Some(&self.pending[self.pending.len() - 1])
        }
    }

    /// Takes the hashes of the next task's members (in member order; a
    /// member that could not be read has none): the members that agree on
    /// a hash, two or more, stay together. After the full hash they form a
    /// group; before it they become tasks for the next hash.
    pub fn record_hashes(&mut self, hashes: &Vec<Option<u64>>)
        requires
            old(self).pending_view().len() > 0,
            hashes@.len() == old(self).pending_view().last().2.len(),
        ensures
            ({
                let t = old(self).pending_view().last();
                let rest = old(self).pending_view().drop_last();
                if t.0 == HashStage::Full {
                    &&& final(self).pending_view() == rest
                    &&& final(self).groups_view() == old(self).groups_view() + final_groups(t, hashes@)
                } else {
                    &&& final(self).pending_view() == rest + next_tasks(t, hashes@)
                    &&& final(self).groups_view() == old(self).groups_view()
                }
            }),
    {
        let ghost t = self.pending_view().last();
        let ghost rest = self.pending_view().drop_last();
        let ghost g0 = self.groups_view();
        let task = self.pending.pop().unwrap();
        assert(task_view(task) == t);
        assert(self.pending_view() =~= rest);
        let parts = split_by_hash(hashes);
        let ghost pv = Seq::new(parts@.len(), |g: int| Seq::new(parts@[g]@.len(), |k: int| parts@[g]@[k] as int));
        assert(pv == hash_groups(hashes@));
        let mut made: Vec<Vec<usize>> = Vec::new();
        let mut g: usize = 0;
        while g < parts.len()
            invariant
                g <= parts@.len(),
                pv == Seq::new(parts@.len(), |x: int| Seq::new(parts@[x]@.len(), |k: int| parts@[x]@[k] as int)),
                forall|x: int, k: int| 0 <= x < parts@.len() && 0 <= k < parts@[x]@.len() ==> #[trigger] parts@[x]@[k]
                    < hashes@.len(),
                hashes@.len() == task.members@.len(),
                made@.len() == g,
                forall|x: int| 0 <= x < g ==> #[trigger] made@[x]@ == part_members(task.members@, pv[x]),
            decreases parts@.len() - g,
        {
            let mut m: Vec<usize> = Vec::new();
            let mut k: usize = 0;
            while k < parts[g].len()
                invariant
                    g < parts@.len(),
                    k <= parts@[g as int]@.len(),
                    forall|x: int, q: int| 0 <= x < parts@.len() && 0 <= q < parts@[x]@.len() ==> #[trigger] parts@[x]@[q]
                        < hashes@.len(),
                    hashes@.len() == task.members@.len(),
                    m@ == Seq::new(k as nat, |q: int| task.members@[parts@[g as int]@[q] as int]),
                decreases parts@[g as int]@.len() - k,
            {
                m.push(task.members[parts[g][k]]);
                k = k + 1;
                assert(m@ =~= Seq::new(k as nat, |q: int| task.members@[parts@[g as int]@[q] as int]));
            }
            assert(m@ =~= part_members(task.members@, pv[g as int]));
            made.push(m);
            g = g + 1;
        }
        match task.stage {
            HashStage::Full => {
                let mut i: usize = 0;
                while i < made.len()
                    invariant
                        i <= made@.len(),
                        made@.len() == pv.len(),
                        forall|x: int| i <= x < made@.len() ==> #[trigger] made@[x]@ == part_members(task.members@, pv[x]),
                        self.pending_view() == rest,
                        self.groups_view() == g0 + Seq::new(
                            i as nat,
                            |x: int| (task.size, part_members(task.members@, pv[x])),
                        ),
                    decreases made@.len() - i,
                {
                    let ghost before = self.groups_view();
                    let ghost mv = made@;
                    let mut m: Vec<usize> = Vec::new();
                    std::mem::swap(&mut m, &mut made[i]);
                    assert(m@ == part_members(task.members@, pv[i as int]));
                    assert forall|x: int| i + 1 <= x < made@.len() implies #[trigger] made@[x]@ == part_members(task.members@, pv[x]) by {
                        assert(made@[x] == mv[x]);
                    }
                    self.groups.push((task.size, m));
                    proof {
                        assert(self.groups_view() =~= before.push((task.size, part_members(task.members@, pv[i as int]))));
                        assert(self.groups_view() =~= g0 + Seq::new(
                            (i + 1) as nat,
                            |x: int| (task.size, part_members(task.members@, pv[x])),
                        ));
                    }
                    i = i + 1;
                }
                assert(Seq::new(made@.len(), |x: int| (task.size, part_members(task.members@, pv[x])))
                    =~= final_groups(t, hashes@));
            },
            _ => {
                let next = match task.stage {
                    HashStage::Quick => HashStage::Partial,
                    _ => HashStage::Full,
                };
                let n = made.len();
                let mut i: usize = 0;
                while i < n
                    invariant
                        i <= n,
                        n == pv.len(),
                        made@.len() == n - i,
                        next == next_stage(task.stage),
                        forall|x: int| 0 <= x < n - i ==> #[trigger] made@[x]@ == part_members(task.members@, pv[x]),
                        self.groups_view() == g0,
                        self.pending_view() == rest + Seq::new(
                            i as nat,
                            |k: int| (next, task.size, part_members(task.members@, pv[pv.len() - 1 - k])),
                        ),
                    decreases n - i,
                {
                    let ghost before = self.pending_view();
                    let ghost mv = made@;
                    let m = made.pop().unwrap();
                    assert(m@ == part_members(task.members@, pv[n - 1 - i]));
                    assert forall|x: int| 0 <= x < n - (i + 1) implies #[trigger] made@[x]@ == part_members(task.members@, pv[x]) by {
                        assert(made@[x] == mv[x]);
                    }
                    self.pending.push(CascadeTask { stage: next, size: task.size, members: m });
                    proof {
                        assert(self.pending_view() =~= before.push((next, task.size, part_members(task.members@, pv[n - 1 - i]))));
                        assert(self.pending_view() =~= rest + Seq::new(
                            (i + 1) as nat,
                            |k: int| (next, task.size, part_members(task.members@, pv[pv.len() - 1 - k])),
                        ));
                    }
                    i = i + 1;
                }
                assert(Seq::new(n as nat, |k: int| (next, task.size, part_members(task.members@, pv[pv.len() - 1 - k])))
                    =~= next_tasks(t, hashes@));
            },
        }
    }

    /// The groups found so far, in the order they were found, each with its
    /// file size.
    pub fn groups(&self) -> (r: &Vec<(u64, Vec<usize>)>)
        ensures
            Seq::new(r@.len(), |k: int| (r@[k].0, r@[k].1@)) == self.groups_view(),
    {
        &self.groups
    }

    /// The groups found, in the order they were found, each with its file
    /// size.
    pub fn into_groups(self) -> (r: Vec<(u64, Vec<usize>)>)
        ensures
            Seq::new(r@.len(), |k: int| (r@[k].0, r@[k].1@)) == self.groups_view(),
    {
        self.groups
    }
}

} // verus!
