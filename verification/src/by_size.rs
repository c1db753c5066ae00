//! Stable ordering of records by a size key, largest first.
use vstd::prelude::*;

verus! {

/// Records that carry a size to order them by.
pub trait SizeKeyed {
    spec fn size_key(&self) -> u64;

    fn key(&self) -> (r: u64)
        ensures
            r == self.size_key(),
    ;
}

/// Records ordered by their size key, largest first.
pub open spec fn sorted_desc<T: SizeKeyed>(s: Seq<T>) -> bool {
    forall|i: int, j: int| 0 <= i < j < s.len() ==> s[i].size_key() >= s[j].size_key()
}

/// Stable sort by size key, largest first: records of equal size keep
/// their order.
pub fn sort_by_size_desc<T: SizeKeyed>(v: &mut Vec<T>)
    ensures
        sorted_desc(final(v)@),
        final(v)@.to_multiset() == old(v)@.to_multiset(),
        final(v)@.len() == old(v)@.len(),
{
    let n = v.len();
    if n == 0 {
        return;
    }
    let mut i: usize = 1;
    while i < n
        invariant
            1 <= i <= n,
            v.len() == n,
            sorted_desc(v@.take(i as int)),
            v@.to_multiset() == old(v)@.to_multiset(),
        decreases n - i,
    {
        let mut j: usize = i;
        assert forall|a: int, b: int| 0 <= a < b <= i && a != j && b != j implies #[trigger] v@[a].size_key()
            >= #[trigger] v@[b].size_key() by {
            assert(v@.take(i as int)[a] == v@[a]);
            assert(v@.take(i as int)[b] == v@[b]);
        }
        while j > 0 && v[j - 1].key() < v[j].key()
            invariant
                0 <= j <= i < n,
                v.len() == n,
                forall|a: int, b: int|
                    0 <= a < b <= i && a != j && b != j ==> v@[a].size_key() >= v@[b].size_key(),
                forall|b: int| j < b <= i ==> v@[j as int].size_key() > v@[b].size_key(),
                v@.to_multiset() == old(v)@.to_multiset(),
            decreases j,
        {
            let ghost before = v@;
            let x = v.remove(j);
            v.insert(j - 1, x);
            proof {
                vstd::seq_lib::to_multiset_remove(before, j as int);
                vstd::seq_lib::to_multiset_insert(before.remove(j as int), j - 1, x);
                before.to_multiset_ensures();
                assert(before.to_multiset().contains(x));
                assert(before.to_multiset().remove(x).insert(x) =~= before.to_multiset());
                assert(v@ =~= before.update(j - 1, before[j as int]).update(j as int, before[j - 1]));
            }
            j = j - 1;
        }
        proof {
            assert forall|a: int, b: int| 0 <= a < b < i + 1 implies #[trigger] v@.take(i + 1)[a].size_key()
                >= #[trigger] v@.take(i + 1)[b].size_key() by {
                if a == j && b > j {
                } else if b == j {
                    if j > 0 {
                    }
                }
            }
        }
        i = i + 1;
    }
    assert(v@.take(n as int) =~= v@);
}

/// A position in some list, with the size to rank it by.
pub struct SizedIndex {
    pub size: u64,
    pub index: usize,
}

impl SizeKeyed for SizedIndex {
    open spec fn size_key(&self) -> u64 {
        self.size
    }

    fn key(&self) -> (r: u64) {
        self.size
    }
}

/// Key `a` at position `ia` goes before key `b` at position `ib`: smaller
/// first component, then larger second component, then earlier position.
pub open spec fn key_before(a: (u64, u64), ia: int, b: (u64, u64), ib: int) -> bool {
    ||| a.0 < b.0
    ||| (a.0 == b.0 && a.1 > b.1)
    ||| (a.0 == b.0 && a.1 == b.1 && ia < ib)
}

/// `p` lists every position of `keys` exactly once, in key order: the
/// order a stable sort by (first ascending, second descending) gives.
pub open spec fn is_stable_key_order(keys: Seq<(u64, u64)>, p: Seq<usize>) -> bool {
    &&& p.len() == keys.len()
    &&& forall|k: int| 0 <= k < p.len() ==> #[trigger] p[k] < keys.len()
    &&& forall|a: int, b: int| 0 <= a < b < p.len() ==> p[a] != p[b]
    &&& forall|a: int, b: int|
        0 <= a < b < p.len() ==> key_before(keys[#[trigger] p[a] as int], p[a] as int, keys[#[trigger] p[b] as int], p[b] as int)
}

/// The positions of `keys` in the order of a stable sort by first
/// component ascending, then second component descending.
pub fn stable_key_order(keys: &Vec<(u64, u64)>) -> (p: Vec<usize>)
    ensures
        is_stable_key_order(keys@, p@),
{
    let n = keys.len();
    let mut p: Vec<usize> = Vec::new();
    let mut i: usize = 0;
    while i < n
        invariant
            i <= n,
            n == keys@.len(),
            p@.len() == i,
            forall|k: int| 0 <= k < p@.len() ==> #[trigger] p@[k] < i,
            forall|a: int, b: int| 0 <= a < b < p@.len() ==> p@[a] != p@[b],
            forall|a: int, b: int|
                0 <= a < b < p@.len() ==> key_before(keys@[#[trigger] p@[a] as int], p@[a] as int, keys@[#[trigger] p@[b] as int], p@[b] as int),
        decreases n - i,
    {
        let ki = keys[i];
        let mut pos: usize = 0;
        while pos < p.len() && !key_after(keys[p[pos]], ki)
            invariant
                pos <= p@.len(),
                p@.len() == i,
                i < n,
                n == keys@.len(),
                ki == keys@[i as int],
                forall|k: int| 0 <= k < p@.len() ==> #[trigger] p@[k] < i,
                forall|k: int| 0 <= k < pos ==> key_before(keys@[#[trigger] p@[k] as int], p@[k] as int, ki, i as int),
            decreases p@.len() - pos,
        {
            pos = pos + 1;
        }
        let ghost before = p@;
        proof {
            assert forall|k: int| pos <= k < before.len() implies key_before(ki, i as int, keys@[#[trigger] before[k] as int], before[k] as int) by {
                if k > pos {
                    assert(key_before(keys@[before[pos as int] as int], before[pos as int] as int, keys@[before[k] as int], before[k] as int));
                }
            }
        }
        p.insert(pos, i);
        proof {
            assert forall|k: int| 0 <= k < p@.len() implies #[trigger] p@[k] < i + 1 by {
                if k < pos {
                    assert(p@[k] == before[k]);
                } else if k > pos {
                    assert(p@[k] == before[k - 1]);
                }
            }
            assert forall|a: int, b: int| 0 <= a < b < p@.len() implies p@[a] != p@[b] by {
                if a < pos && b < pos {
                    assert(p@[a] == before[a] && p@[b] == before[b]);
                } else if a < pos && b == pos {
                    assert(p@[a] == before[a]);
                } else if a < pos {
                    assert(p@[a] == before[a] && p@[b] == before[b - 1]);
                } else if a == pos {
                    assert(p@[b] == before[b - 1]);
                } else {
                    assert(p@[a] == before[a - 1] && p@[b] == before[b - 1]);
                }
            }
            assert forall|a: int, b: int| 0 <= a < b < p@.len() implies key_before(
                keys@[#[trigger] p@[a] as int],
                p@[a] as int,
                keys@[#[trigger] p@[b] as int],
                p@[b] as int,
            ) by {
                if a < pos && b < pos {
                    assert(p@[a] == before[a] && p@[b] == before[b]);
                } else if a < pos && b == pos {
                    assert(p@[a] == before[a]);
                } else if a < pos {
                    assert(p@[a] == before[a] && p@[b] == before[b - 1]);
                } else if a == pos {
                    assert(p@[b] == before[b - 1]);
                } else {
                    assert(p@[a] == before[a - 1] && p@[b] == before[b - 1]);
                }
            }
        }
        i = i + 1;
    }
    p
}

/// Whether key `a` of an earlier position goes after key `b` of a later one.
fn key_after(a: (u64, u64), b: (u64, u64)) -> (r: bool)
    ensures
        r == (b.0 < a.0 || (b.0 == a.0 && b.1 > a.1)),
{
    b.0 < a.0 || (b.0 == a.0 && b.1 > a.1)
}

} // verus!
