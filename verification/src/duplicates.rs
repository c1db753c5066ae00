//! Duplicate files: candidates bucketed by size, buckets split by content
//! hashes (a head hash, a hash of three samples, a hash of everything), the
//! groups found ordered by the space they waste, and the registry of
//! running searches.
use vstd::prelude::*;
use crate::by_size::{is_stable_key_order, stable_key_order};
use crate::file_info::FileInfo;
use crate::session::{normalize_key, session_key, CancellationToken};
use crate::text::{lemma_lex_transitive, lemma_lex_trichotomy, lex_lt, str_eq, str_less};

verus! {

/// Files below this size are not compared (100 MiB).
pub const DUPLICATE_MIN_SIZE: u64 = 104857600;

/// The head hashed first (64 KiB).
pub const QUICK_HASH_BYTES: u64 = 65536;

/// The size of each of the three samples (128 KiB).
pub const PARTIAL_HASH_BYTES: u64 = 131072;

/// One copy of a duplicated file.
pub struct DuplicateFile {
    pub path: String,
    pub modified_at: String,
}

/// Files of equal size and content.
pub struct DuplicateGroup {
    pub size: u64,
    pub files: Vec<DuplicateFile>,
    pub wasted_bytes: u64,
}

/// How far a search has come.
pub struct DuplicateProgress {
    pub current_size: u64,
    pub scanned_files: usize,
    pub found_groups: usize,
}

// ---------------------------------------------------------------------------
// Splitting by hash
// ---------------------------------------------------------------------------

/// The distinct hashes among the first `n`, in order of first appearance.
pub open spec fn first_hashes(hashes: Seq<Option<u64>>, n: int) -> Seq<u64>
    decreases n,
{
    if n <= 0 {
        Seq::empty()
    } else {
        let prev = first_hashes(hashes, n - 1);
        match hashes[n - 1] {
            Some(h) => if prev.contains(h) { prev } else { prev.push(h) },
            None => prev,
        }
    }
}

/// The positions among the first `n` whose hash is `h`.
pub open spec fn members_upto(hashes: Seq<Option<u64>>, h: u64, n: int) -> Seq<int>
    decreases n,
{
    if n <= 0 {
        Seq::empty()
    } else if hashes[n - 1] == Some(h) {
        members_upto(hashes, h, n - 1).push(n - 1)
    } else {
        members_upto(hashes, h, n - 1)
    }
}

/// The groups of files of equal hash: for each hash in order of first
/// appearance, the positions that have it, when there are at least two.
pub open spec fn hash_groups_upto(hashes: Seq<Option<u64>>, k: int) -> Seq<Seq<int>>
    decreases k,
{
    if k <= 0 {
        Seq::empty()
    } else {
        let h = first_hashes(hashes, hashes.len() as int)[k - 1];
        let m = members_upto(hashes, h, hashes.len() as int);
        if m.len() >= 2 {
            hash_groups_upto(hashes, k - 1).push(m)
        } else {
            hash_groups_upto(hashes, k - 1)
        }
    }
}

/// The groups of a whole list of hashes (see [`hash_groups_upto`]).
pub open spec fn hash_groups(hashes: Seq<Option<u64>>) -> Seq<Seq<int>> {
    hash_groups_upto(hashes, first_hashes(hashes, hashes.len() as int).len() as int)
}

fn distinct_hashes(hashes: &Vec<Option<u64>>) -> (r: Vec<u64>)
    ensures
        r@ == first_hashes(hashes@, hashes@.len() as int),
{
    let mut out: Vec<u64> = Vec::new();
    let mut i: usize = 0;
    while i < hashes.len()
        invariant
            i <= hashes@.len(),
            out@ == first_hashes(hashes@, i as int),
        decreases hashes@.len() - i,
    {
        match hashes[i] {
            Some(h) => {
                let mut k: usize = 0;
                let mut seen = false;
                while k < out.len()
                    invariant
                        k <= out@.len(),
                        seen == exists|q: int| 0 <= q < k && out@[q] == h,
                    decreases out@.len() - k,
                {
                    if out[k] == h {
                        seen = true;
                    }
                    k = k + 1;
                }
                if !seen {
                    out.push(h);
                }
            },
            None => {},
        }
        i = i + 1;
    }
    out
}

fn members_of(hashes: &Vec<Option<u64>>, h: u64) -> (r: Vec<usize>)
    ensures
        Seq::new(r@.len(), |k: int| r@[k] as int) == members_upto(hashes@, h, hashes@.len() as int),
        forall|k: int| 0 <= k < r@.len() ==> (#[trigger] r@[k]) < hashes@.len(),
{
    let mut out: Vec<usize> = Vec::new();
    let mut i: usize = 0;
    while i < hashes.len()
        invariant
            i <= hashes@.len(),
            Seq::new(out@.len(), |k: int| out@[k] as int) == members_upto(hashes@, h, i as int),
            forall|k: int| 0 <= k < out@.len() ==> (#[trigger] out@[k]) < i,
        decreases hashes@.len() - i,
    {
        if hashes[i] == Some(h) {
            let ghost before = Seq::new(out@.len(), |k: int| out@[k] as int);
            out.push(i);
            assert(Seq::new(out@.len(), |k: int| out@[k] as int) =~= before.push(i as int));
        }
        i = i + 1;
    }
    out
}

/// The groups of positions whose hashes are equal (see [`hash_groups`]);
/// positions whose hash failed (`None`) are in no group.
pub fn split_by_hash(hashes: &Vec<Option<u64>>) -> (r: Vec<Vec<usize>>)
    ensures
        Seq::new(r@.len(), |g: int| Seq::new(r@[g]@.len(), |k: int| r@[g]@[k] as int)) == hash_groups(hashes@),
        forall|g: int, k: int| 0 <= g < r@.len() && 0 <= k < r@[g]@.len() ==> #[trigger] r@[g]@[k] < hashes@.len(),
{
    let distinct = distinct_hashes(hashes);
    let mut out: Vec<Vec<usize>> = Vec::new();
    let mut k: usize = 0;
    while k < distinct.len()
        invariant
            k <= distinct@.len(),
            distinct@ == first_hashes(hashes@, hashes@.len() as int),
            Seq::new(out@.len(), |g: int| Seq::new(out@[g]@.len(), |q: int| out@[g]@[q] as int)) == hash_groups_upto(hashes@, k as int),
            forall|g: int, q: int| 0 <= g < out@.len() && 0 <= q < out@[g]@.len() ==> #[trigger] out@[g]@[q] < hashes@.len(),
        decreases distinct@.len() - k,
    {
        let m = members_of(hashes, distinct[k]);
        if m.len() >= 2 {
            let ghost before = Seq::new(out@.len(), |g: int| Seq::new(out@[g]@.len(), |q: int| out@[g]@[q] as int));
            let ghost mv = Seq::new(m@.len(), |q: int| m@[q] as int);
            out.push(m);
            assert(Seq::new(out@.len(), |g: int| Seq::new(out@[g]@.len(), |q: int| out@[g]@[q] as int)) =~= before.push(mv));
        }
        k = k + 1;
    }
    out
}

// ---------------------------------------------------------------------------
// Buckets of equal size
// ---------------------------------------------------------------------------

/// A candidate that is compared: large enough and not a link.
pub open spec fn eligible(f: FileInfo, min_size: u64) -> bool {
    f.size >= min_size && !f.is_symlink
}

/// The positions among the first `n` of the compared candidates of a size.
pub open spec fn of_size_upto(cands: Seq<FileInfo>, min_size: u64, size: u64, n: int) -> Seq<int>
    decreases n,
{
    if n <= 0 {
        Seq::empty()
    } else if eligible(cands[n - 1], min_size) && cands[n - 1].size == size {
        of_size_upto(cands, min_size, size, n - 1).push(n - 1)
    } else {
        of_size_upto(cands, min_size, size, n - 1)
    }
}

/// The positions of the compared candidates of a size.
pub open spec fn of_size(cands: Seq<FileInfo>, min_size: u64, size: u64) -> Seq<int> {
    of_size_upto(cands, min_size, size, cands.len() as int)
}

/// The buckets a search compares: for each size held by at least two
/// compared candidates, their positions in order; the sizes strictly
/// decreasing, every such size present.
pub open spec fn buckets_ok(cands: Seq<FileInfo>, min_size: u64, r: Seq<(u64, Seq<int>)>) -> bool {
    &&& forall|k: int| 0 <= k < r.len() ==> (#[trigger] r[k]).1 == of_size(cands, min_size, r[k].0) && r[k].1.len() >= 2
    &&& forall|a: int, b: int| 0 <= a < b < r.len() ==> (#[trigger] r[a]).0 > (#[trigger] r[b]).0
    &&& forall|size: u64| #[trigger] of_size(cands, min_size, size).len() >= 2 ==> exists|k: int|
        0 <= k < r.len() && r[k].0 == size
}

proof fn lemma_of_size_bounds(cands: Seq<FileInfo>, min_size: u64, size: u64, n: int)
    requires
        0 <= n <= cands.len(),
    ensures
        forall|q: int| 0 <= q < of_size_upto(cands, min_size, size, n).len() ==> 0 <= #[trigger] of_size_upto(
            cands,
            min_size,
            size,
            n,
        )[q] < n && eligible(cands[of_size_upto(cands, min_size, size, n)[q]], min_size)
            && cands[of_size_upto(cands, min_size, size, n)[q]].size == size,
    decreases n,
{
    if n > 0 {
        lemma_of_size_bounds(cands, min_size, size, n - 1);
    }
}

fn positions_of_size(cands: &Vec<FileInfo>, min_size: u64, size: u64) -> (r: Vec<usize>)
    ensures
        Seq::new(r@.len(), |k: int| r@[k] as int) == of_size(cands@, min_size, size),
{
    let mut out: Vec<usize> = Vec::new();
    let mut i: usize = 0;
    while i < cands.len()
        invariant
            i <= cands@.len(),
            Seq::new(out@.len(), |k: int| out@[k] as int) == of_size_upto(cands@, min_size, size, i as int),
        decreases cands@.len() - i,
    {
        if cands[i].size >= min_size && !cands[i].is_symlink && cands[i].size == size {
            let ghost before = Seq::new(out@.len(), |k: int| out@[k] as int);
            out.push(i);
            assert(Seq::new(out@.len(), |k: int| out@[k] as int) =~= before.push(i as int));
        }
        i = i + 1;
    }
    out
}

/// The sizes of the compared candidates, each once, largest first.
fn held_sizes_desc(cands: &Vec<FileInfo>, min_size: u64) -> (r: Vec<u64>)
    ensures
        forall|a: int, b: int| 0 <= a < b < r@.len() ==> #[trigger] r@[a] > #[trigger] r@[b],
        forall|q: int| 0 <= q < cands@.len() && eligible(#[trigger] cands@[q], min_size) ==> r@.contains(cands@[q].size),
{
    let mut sizes: Vec<u64> = Vec::new();
    let mut i: usize = 0;
    while i < cands.len()
        invariant
            i <= cands@.len(),
            forall|a: int, b: int| 0 <= a < b < sizes@.len() ==> #[trigger] sizes@[a] > #[trigger] sizes@[b],
            forall|q: int| 0 <= q < i && eligible(#[trigger] cands@[q], min_size) ==> sizes@.contains(cands@[q].size),
        decreases cands@.len() - i,
    {
        if cands[i].size >= min_size && !cands[i].is_symlink {
            let sz = cands[i].size;
            let mut k: usize = 0;
            while k < sizes.len() && sizes[k] > sz
                invariant
                    k <= sizes@.len(),
                    forall|q: int| 0 <= q < k ==> #[trigger] sizes@[q] > sz,
                decreases sizes@.len() - k,
            {
                k = k + 1;
            }
            if k < sizes.len() && sizes[k] == sz {
                assert(sizes@.contains(sizes@[k as int]));
            } else {
                let ghost before = sizes@;
                sizes.insert(k, sz);
                proof {
                    assert(sizes@ == before.insert(k as int, sz));
                    assert forall|a: int, b: int| 0 <= a < b < sizes@.len() implies #[trigger] sizes@[a] > #[trigger] sizes@[b] by {
                        if b < k {
                            assert(sizes@[a] == before[a] && sizes@[b] == before[b]);
                        } else if b == k {
                            assert(sizes@[a] == before[a]);
                        } else if a < k {
                            assert(sizes@[a] == before[a] && sizes@[b] == before[b - 1]);
                            assert(before[k as int] < sz);
                            if b - 1 > k {
                                assert(before[k as int] > before[b - 1]);
                            }
                        } else if a == k {
                            assert(sizes@[b] == before[b - 1]);
                            assert(before[k as int] < sz);
                            if b - 1 > k {
                                assert(before[k as int] > before[b - 1]);
                            }
                        } else {
                            assert(sizes@[a] == before[a - 1] && sizes@[b] == before[b - 1]);
                        }
                    }
                    assert forall|q: int| 0 <= q < i + 1 && eligible(#[trigger] cands@[q], min_size) implies sizes@.contains(cands@[q].size) by {
                        if q < i {
                            let w = choose|w: int| 0 <= w < before.len() && before[w] == cands@[q].size;
                            if w < k {
                                assert(sizes@[w] == before[w]);
                            } else {
                                assert(sizes@[w + 1] == before[w]);
                            }
                        } else {
                            assert(sizes@[k as int] == sz);
                        }
                    }
                }
            }
        }
        i = i + 1;
    }
    sizes
}

/// The buckets a search compares (see [`buckets_ok`]).
#[verifier::spinoff_prover]
pub fn size_buckets(cands: &Vec<FileInfo>, min_size: u64) -> (r: Vec<(u64, Vec<usize>)>)
    ensures
        buckets_ok(cands@, min_size, Seq::new(r@.len(), |k: int| (r@[k].0, Seq::new(r@[k].1@.len(), |q: int| r@[k].1@[q] as int)))),
{
    let sizes = held_sizes_desc(cands, min_size);
    let mut out: Vec<(u64, Vec<usize>)> = Vec::new();
    let mut j: usize = 0;
    while j < sizes.len()
        invariant
            j <= sizes@.len(),
            forall|a: int, b: int| 0 <= a < b < sizes@.len() ==> #[trigger] sizes@[a] > #[trigger] sizes@[b],
            forall|q: int| 0 <= q < out@.len() ==> Seq::new((#[trigger] out@[q]).1@.len(), |x: int| out@[q].1@[x] as int)
                == of_size(cands@, min_size, out@[q].0) && out@[q].1@.len() >= 2,
            forall|a: int, b: int| 0 <= a < b < out@.len() ==> (#[trigger] out@[a]).0 > (#[trigger] out@[b]).0,
            forall|q: int, y: int| 0 <= q < out@.len() && j <= y < sizes@.len() ==> (#[trigger] out@[q]).0 > #[trigger] sizes@[y],
            forall|x: int| 0 <= x < j && of_size(cands@, min_size, #[trigger] sizes@[x]).len() >= 2 ==> exists|q: int|
                0 <= q < out@.len() && out@[q].0 == sizes@[x],
        decreases sizes@.len() - j,
    {
        let sz = sizes[j];
        let ps = positions_of_size(cands, min_size, sz);
        if ps.len() >= 2 {
            let ghost before = out@;
            out.push((sz, ps));
            proof {
                assert forall|q: int| 0 <= q < before.len() implies (#[trigger] out@[q]).0 > sz by {
                    assert(out@[q] == before[q]);
                    assert(before[q].0 > sizes@[j as int]);
                }
                assert forall|q: int, y: int| 0 <= q < out@.len() && j + 1 <= y < sizes@.len() implies (#[trigger] out@[q]).0
                    > #[trigger] sizes@[y] by {
                    if q < before.len() {
                        assert(out@[q] == before[q]);
                    } else {
                        assert(out@[q].0 == sizes@[j as int]);
                    }
                }
                assert forall|x: int| 0 <= x < j + 1 && of_size(cands@, min_size, #[trigger] sizes@[x]).len() >= 2 implies exists|q: int|
                    0 <= q < out@.len() && out@[q].0 == sizes@[x] by {
                    if x < j {
                        let q = choose|q: int| 0 <= q < before.len() && before[q].0 == sizes@[x];
                        assert(out@[q] == before[q]);
                    } else {
                        assert(out@[before.len() as int].0 == sizes@[x]);
                    }
                }
            }
        }
        j = j + 1;
    }
    let ghost rv = Seq::new(out@.len(), |k: int| (out@[k].0, Seq::new(out@[k].1@.len(), |q: int| out@[k].1@[q] as int)));
    proof {
        assert forall|size: u64| #[trigger] of_size(cands@, min_size, size).len() >= 2 implies exists|k: int|
            0 <= k < rv.len() && rv[k].0 == size by {
            lemma_of_size_bounds(cands@, min_size, size, cands@.len() as int);
            let p = of_size(cands@, min_size, size)[0];
            assert(eligible(cands@[p], min_size));
            assert(sizes@.contains(cands@[p].size));
            let x = choose|x: int| 0 <= x < sizes@.len() && sizes@[x] == size;
            assert(of_size(cands@, min_size, sizes@[x]).len() >= 2);
            let q = choose|q: int| 0 <= q < out@.len() && out@[q].0 == sizes@[x];
            assert(rv[q].0 == size);
        }
        assert forall|k: int| 0 <= k < rv.len() implies (#[trigger] rv[k]).1 == of_size(cands@, min_size, rv[k].0) && rv[k].1.len() >= 2 by {
            assert(out@[k].0 == rv[k].0);
        }
        assert forall|a: int, b: int| 0 <= a < b < rv.len() implies (#[trigger] rv[a]).0 > (#[trigger] rv[b]).0 by {
            assert(out@[a].0 > out@[b].0);
        }
    }
    out
}

// ---------------------------------------------------------------------------
// Assembling a group
// ---------------------------------------------------------------------------

impl View for DuplicateFile {
    type V = (Seq<char>, Seq<char>);

    open spec fn view(&self) -> (Seq<char>, Seq<char>) {
        (self.path@, self.modified_at@)
    }
}

impl View for DuplicateGroup {
    type V = (u64, Seq<(Seq<char>, Seq<char>)>, u64);

    open spec fn view(&self) -> (u64, Seq<(Seq<char>, Seq<char>)>, u64) {
        (self.size, Seq::new(self.files@.len(), |k: int| self.files@[k]@), self.wasted_bytes)
    }
}

/// `a * b`, or `u64::MAX` where the product does not fit.
pub open spec fn saturating_product(a: u64, b: u64) -> u64 {
    if a * b > u64::MAX {
        u64::MAX
    } else {
        (a * b) as u64
    }
}

/// `a * b`, or `u64::MAX` where the product does not fit.
pub fn saturating_mul(a: u64, b: u64) -> (r: u64)
    ensures
        r == saturating_product(a, b),
{
    if b == 0 {
        assert(a * b == 0) by (nonlinear_arith)
            requires
                b == 0,
        ;
        0
    } else if a > u64::MAX / b {
        assert(a * b > u64::MAX) by (nonlinear_arith)
            requires
                b > 0,
                a > u64::MAX / b,
        ;
        u64::MAX
    } else {
        assert(a * b <= u64::MAX) by (nonlinear_arith)
            requires
                b > 0,
                a <= u64::MAX / b,
        ;
        a * b
    }
}

/// Entry `ia` with time `a` goes before entry `ib` with time `b`: the later
/// time first, equal times in list order.
pub open spec fn newer_before(a: Seq<char>, ia: int, b: Seq<char>, ib: int) -> bool {
    lex_lt(b, a) || (a == b && ia < ib)
}

/// `p` lists every position of `times` once, newest first, equal times in
/// list order: the order of a stable sort by time, descending.
pub open spec fn is_newest_first(times: Seq<Seq<char>>, p: Seq<usize>) -> bool {
    &&& p.len() == times.len()
    &&& forall|k: int| 0 <= k < p.len() ==> #[trigger] p[k] < times.len()
    &&& forall|a: int, b: int| 0 <= a < b < p.len() ==> p[a] != p[b]
    &&& forall|a: int, b: int|
        0 <= a < b < p.len() ==> newer_before(times[#[trigger] p[a] as int], p[a] as int, times[#[trigger] p[b] as int], p[b] as int)
}

proof fn lemma_newer_before_transitive(a: Seq<char>, ia: int, b: Seq<char>, ib: int, c: Seq<char>, ic: int)
    requires
        newer_before(a, ia, b, ib),
        newer_before(b, ib, c, ic),
    ensures
        newer_before(a, ia, c, ic),
{
    if lex_lt(b, a) && lex_lt(c, b) {
        lemma_lex_transitive(c, b, a);
    }
}

/// The positions of `times`, newest first (see [`is_newest_first`]).
fn newest_first_order(times: &Vec<String>) -> (p: Vec<usize>)
    ensures
        is_newest_first(Seq::new(times@.len(), |k: int| times@[k]@), p@),
{
    let ghost ts = Seq::new(times@.len(), |k: int| times@[k]@);
    let n = times.len();
    let mut p: Vec<usize> = Vec::new();
    let mut i: usize = 0;
    while i < n
        invariant
            i <= n,
            n == times@.len(),
            ts == Seq::new(times@.len(), |k: int| times@[k]@),
            p@.len() == i,
            forall|k: int| 0 <= k < p@.len() ==> #[trigger] p@[k] < i,
            forall|a: int, b: int| 0 <= a < b < p@.len() ==> p@[a] != p@[b],
            forall|a: int, b: int|
                0 <= a < b < p@.len() ==> newer_before(ts[#[trigger] p@[a] as int], p@[a] as int, ts[#[trigger] p@[b] as int], p@[b] as int),
        decreases n - i,
    {
        let mut pos: usize = 0;
        while pos < p.len() && !str_less(times[p[pos]].as_str(), times[i].as_str())
            invariant
                pos <= p@.len(),
                p@.len() == i,
                i < n,
                n == times@.len(),
                ts == Seq::new(times@.len(), |k: int| times@[k]@),
                forall|k: int| 0 <= k < p@.len() ==> #[trigger] p@[k] < i,
                forall|k: int| 0 <= k < pos ==> newer_before(ts[#[trigger] p@[k] as int], p@[k] as int, ts[i as int], i as int),
            decreases p@.len() - pos,
        {
            proof {
                lemma_lex_trichotomy(ts[p@[pos as int] as int], ts[i as int]);
            }
            pos = pos + 1;
        }
        let ghost before = p@;
        proof {
            assert forall|k: int| pos <= k < before.len() implies newer_before(ts[i as int], i as int, ts[#[trigger] before[k] as int], before[k] as int) by {
                assert(lex_lt(ts[before[pos as int] as int], ts[i as int]));
                if k > pos {
                    assert(newer_before(ts[before[pos as int] as int], before[pos as int] as int, ts[before[k] as int], before[k] as int));
                    lemma_newer_before_transitive(ts[i as int], i as int, ts[before[pos as int] as int], before[pos as int] as int, ts[before[k] as int], before[k] as int);
                }
            }
        }
        p.insert(pos, i);
        proof {
            assert forall|k: int| 0 <= k < p@.len() implies #[trigger] p@[k] < i + 1 by {
                if k < pos {
                    assert(p@[k] == before[k]);
                } else if k > pos {
                    assert(p@[k] == before[k - 1]);
                }
            }
            assert forall|a: int, b: int| 0 <= a < b < p@.len() implies p@[a] != p@[b] by {
                if a < pos && b < pos {
                    assert(p@[a] == before[a] && p@[b] == before[b]);
                } else if a < pos && b == pos {
                    assert(p@[a] == before[a]);
                } else if a < pos {
                    assert(p@[a] == before[a] && p@[b] == before[b - 1]);
                } else if a == pos {
                    assert(p@[b] == before[b - 1]);
                } else {
                    assert(p@[a] == before[a - 1] && p@[b] == before[b - 1]);
                }
            }
            assert forall|a: int, b: int| 0 <= a < b < p@.len() implies newer_before(
                ts[#[trigger] p@[a] as int],
                p@[a] as int,
                ts[#[trigger] p@[b] as int],
                p@[b] as int,
            ) by {
                if a < pos && b < pos {
                    assert(p@[a] == before[a] && p@[b] == before[b]);
                } else if a < pos && b == pos {
                    assert(p@[a] == before[a]);
                } else if a < pos {
                    assert(p@[a] == before[a] && p@[b] == before[b - 1]);
                } else if a == pos {
                    assert(p@[b] == before[b - 1]);
                } else {
                    assert(p@[a] == before[a - 1] && p@[b] == before[b - 1]);
                }
            }
        }
        i = i + 1;
    }
    p
}

/// The modification times of the members of a group, in member order.
pub open spec fn member_times(cands: Seq<FileInfo>, members: Seq<usize>) -> Seq<Seq<char>> {
    Seq::new(members.len(), |k: int| cands[members[k] as int].modified_at@)
}

/// The group of the given members of `cands`, all of size `size`: the files
/// newest first (equal times in member order), and the bytes wasted by all
/// but one copy.
pub fn make_group(size: u64, cands: &Vec<FileInfo>, members: &Vec<usize>) -> (g: DuplicateGroup)
    requires
        members@.len() >= 1,
        forall|k: int| 0 <= k < members@.len() ==> #[trigger] members@[k] < cands@.len(),
    ensures
        g@.0 == size,
        g@.2 == saturating_product(size, (members@.len() - 1) as u64),
        exists|p: Seq<usize>|
            is_newest_first(member_times(cands@, members@), p) && g@.1 == Seq::new(
                members@.len(),
                |k: int| (cands@[members@[p[k] as int] as int].path@, cands@[members@[p[k] as int] as int].modified_at@),
            ),
{
    let mut times: Vec<String> = Vec::new();
    let mut i: usize = 0;
    while i < members.len()
        invariant
            i <= members@.len(),
            times@.len() == i,
            forall|k: int| 0 <= k < members@.len() ==> #[trigger] members@[k] < cands@.len(),
            forall|k: int| 0 <= k < i ==> #[trigger] times@[k]@ == cands@[members@[k] as int].modified_at@,
        decreases members@.len() - i,
    {
        times.push(cands[members[i]].modified_at.clone());
        i = i + 1;
    }
    let order = newest_first_order(&times);
    assert(Seq::new(times@.len(), |k: int| times@[k]@) =~= member_times(cands@, members@));
    let mut files: Vec<DuplicateFile> = Vec::new();
    let mut j: usize = 0;
    while j < order.len()
        invariant
            j <= order@.len(),
            order@.len() == members@.len(),
            files@.len() == j,
            forall|k: int| 0 <= k < order@.len() ==> #[trigger] order@[k] < members@.len(),
            forall|k: int| 0 <= k < members@.len() ==> #[trigger] members@[k] < cands@.len(),
            forall|k: int| 0 <= k < j ==> #[trigger] files@[k]@ == (
                cands@[members@[order@[k] as int] as int].path@,
                cands@[members@[order@[k] as int] as int].modified_at@,
            ),
        decreases order@.len() - j,
    {
        let f = &cands[members[order[j]]];
        files.push(DuplicateFile { path: f.path.clone(), modified_at: f.modified_at.clone() });
        j = j + 1;
    }
    let wasted = saturating_mul(size, (members.len() - 1) as u64);
    let g = DuplicateGroup { size, files, wasted_bytes: wasted };
    assert(g@.1 =~= Seq::new(
        members@.len(),
        |k: int| (cands@[members@[order@[k] as int] as int].path@, cands@[members@[order@[k] as int] as int].modified_at@),
    ));
    g
}

fn copy_group(g: &DuplicateGroup) -> (r: DuplicateGroup)
    ensures
        r@ == g@,
{
    let mut files: Vec<DuplicateFile> = Vec::new();
    let mut i: usize = 0;
    while i < g.files.len()
        invariant
            i <= g.files@.len(),
            files@.len() == i,
            forall|k: int| 0 <= k < i ==> #[trigger] files@[k]@ == g.files@[k]@,
        decreases g.files@.len() - i,
    {
        let f = &g.files[i];
        files.push(DuplicateFile { path: f.path.clone(), modified_at: f.modified_at.clone() });
        i = i + 1;
    }
    let r = DuplicateGroup { size: g.size, files, wasted_bytes: g.wasted_bytes };
    assert(r@.1 =~= g@.1);
    r
}

/// The keys a list of groups is ordered by: wasted bytes, largest first.
pub open spec fn waste_keys(groups: Seq<DuplicateGroup>) -> Seq<(u64, u64)> {
    Seq::new(groups.len(), |k: int| (0u64, groups[k].wasted_bytes))
}

/// The groups ordered by wasted bytes, largest first; groups that waste as
/// much keep their order.
pub fn order_by_waste(groups: &Vec<DuplicateGroup>) -> (r: Vec<DuplicateGroup>)
    ensures
        exists|p: Seq<usize>|
            is_stable_key_order(waste_keys(groups@), p) && Seq::new(r@.len(), |k: int| r@[k]@) == Seq::new(
                p.len(),
                |k: int| groups@[p[k] as int]@,
            ),
{
    let mut keys: Vec<(u64, u64)> = Vec::new();
    let mut i: usize = 0;
    while i < groups.len()
        invariant
            i <= groups@.len(),
            keys@.len() == i,
            forall|k: int| 0 <= k < i ==> #[trigger] keys@[k] == (0u64, groups@[k].wasted_bytes),
        decreases groups@.len() - i,
    {
        keys.push((0, groups[i].wasted_bytes));
        i = i + 1;
    }
    assert(keys@ =~= waste_keys(groups@));
    let order = stable_key_order(&keys);
    let mut out: Vec<DuplicateGroup> = Vec::new();
    let mut j: usize = 0;
    while j < order.len()
        invariant
            j <= order@.len(),
            is_stable_key_order(waste_keys(groups@), order@),
            out@.len() == j,
            forall|k: int| 0 <= k < j ==> #[trigger] out@[k]@ == groups@[order@[k] as int]@,
        decreases order@.len() - j,
    {
        out.push(copy_group(&groups[order[j]]));
        j = j + 1;
    }
    assert(Seq::new(out@.len(), |k: int| out@[k]@) =~= Seq::new(order@.len(), |k: int| groups@[order@[k] as int]@));
    out
}

// ---------------------------------------------------------------------------
// Content hashes
// ---------------------------------------------------------------------------

/// `twox_hash::XxHash3_64`, the streaming XXH3 64-bit hasher.
#[verifier::external_type_specification]
#[verifier::external_body]
pub struct ExXxHash3_64(twox_hash::XxHash3_64);

/// The bytes written into a hasher since it was made.
pub uninterp spec fn hashed_input(h: twox_hash::XxHash3_64) -> Seq<u8>;

/// The XXH3 64-bit hash, default seed and secret, of `input`.
pub uninterp spec fn xxh3_64(input: Seq<u8>) -> u64;

/// `XxHash3_64::new`: a hasher with the default seed and secret that has
/// been written nothing.
#[verifier::external_body]
fn hasher_new() -> (h: twox_hash::XxHash3_64)
    ensures
        hashed_input(h) == Seq::<u8>::empty(),
{
    twox_hash::XxHash3_64::new()
}

/// `Hasher::write` of `XxHash3_64`: appends `bytes` to what the hasher has
/// been written.
#[verifier::external_body]
fn hasher_write(h: &mut twox_hash::XxHash3_64, bytes: &[u8])
    ensures
        hashed_input(*final(h)) == hashed_input(*old(h)) + bytes@,
{
    std::hash::Hasher::write(h, bytes);
}

/// `Hasher::finish` of `XxHash3_64`: the hash of everything written so far,
/// which depends on those bytes alone, not on how they were split into
/// writes.
#[verifier::external_body]
fn hasher_finish(h: &twox_hash::XxHash3_64) -> (r: u64)
    ensures
        r == xxh3_64(hashed_input(*h)),
{
    std::hash::Hasher::finish(h)
}

/// A running XXH3 hash of a file's contents, fed chunk by chunk.
pub struct ContentHasher {
    inner: twox_hash::XxHash3_64,
}

impl ContentHasher {
    /// The bytes fed so far.
    pub closed spec fn input(&self) -> Seq<u8> {
        hashed_input(self.inner)
    }

    /// A hasher fed nothing yet.
    pub fn new() -> (r: ContentHasher)
        ensures
            r.input() == Seq::<u8>::empty(),
    {
        ContentHasher { inner: hasher_new() }
    }

    /// Feeds the next chunk.
    pub fn update(&mut self, bytes: &[u8])
        ensures
            final(self).input() == old(self).input() + bytes@,
    {
        hasher_write(&mut self.inner, bytes);
    }

    /// The hash of everything fed.
    pub fn digest(&self) -> (r: u64)
        ensures
            r == xxh3_64(self.input()),
    {
        hasher_finish(&self.inner)
    }
}

/// The hash of a file's head (its first [`QUICK_HASH_BYTES`] bytes, or all
/// of a shorter file).
pub fn quick_hash(head: &[u8]) -> (r: u64)
    ensures
        r == xxh3_64(head@),
{
    let mut h = ContentHasher::new();
    h.update(head);
    assert(Seq::<u8>::empty() + head@ =~= head@);
    h.digest()
}

/// The `n` low bytes of `v`, least significant first.
pub open spec fn le_bytes(v: nat, n: nat) -> Seq<u8>
    decreases n,
{
    if n == 0 {
        Seq::empty()
    } else {
        seq![(v % 256) as u8] + le_bytes(v / 256, (n - 1) as nat)
    }
}

/// The eight bytes of `v`, least significant first.
pub fn u64_le_bytes(v: u64) -> (r: Vec<u8>)
    ensures
        r@ == le_bytes(v as nat, 8),
{
    let mut out: Vec<u8> = Vec::new();
    let mut x: u64 = v;
    let mut k: u64 = 0;
    while k < 8
        invariant
            k <= 8,
            out@ + le_bytes(x as nat, (8 - k) as nat) == le_bytes(v as nat, 8),
        decreases 8 - k,
    {
        let b = (x % 256) as u8;
        let ghost rest = le_bytes((x / 256) as nat, (8 - k - 1) as nat);
        assert(le_bytes(x as nat, (8 - k) as nat) == seq![b] + rest);
        let ghost before = out@;
        out.push(b);
        assert(out@ + rest =~= before + (seq![b] + rest));
        x = x / 256;
        k = k + 1;
    }
    assert(out@ + Seq::<u8>::empty() =~= out@);
    out
}

/// What the sample hash reads from samples taken at the given offsets: for
/// each, its offset's eight bytes, then the bytes read there.
pub open spec fn samples_input(samples: Seq<(u64, Seq<u8>)>) -> Seq<u8>
    decreases samples.len(),
{
    if samples.len() == 0 {
        Seq::empty()
    } else {
        samples_input(samples.drop_last()) + le_bytes(samples.last().0 as nat, 8) + samples.last().1
    }
}

/// What the sample hash of a file reads: the file size's eight bytes, then
/// each sample (see [`samples_input`]).
pub open spec fn partial_input(file_size: u64, samples: Seq<(u64, Seq<u8>)>) -> Seq<u8> {
    le_bytes(file_size as nat, 8) + samples_input(samples)
}

/// The samples as offsets and byte sequences.
pub open spec fn samples_view(samples: Seq<(u64, Vec<u8>)>) -> Seq<(u64, Seq<u8>)> {
    Seq::new(samples.len(), |k: int| (samples[k].0, samples[k].1@))
}

/// The hash of a file of `file_size` bytes from the samples read at the
/// offsets [`partial_offsets`] gives (see [`partial_input`]).
pub fn partial_hash(file_size: u64, samples: &Vec<(u64, Vec<u8>)>) -> (r: u64)
    ensures
        r == xxh3_64(partial_input(file_size, samples_view(samples@))),
{
    let ghost sv = samples_view(samples@);
    let mut h = ContentHasher::new();
    let size_bytes = u64_le_bytes(file_size);
    h.update(size_bytes.as_slice());
    assert(Seq::<u8>::empty() + size_bytes@ =~= le_bytes(file_size as nat, 8) + samples_input(sv.take(0)));
    let mut k: usize = 0;
    while k < samples.len()
        invariant
            k <= samples@.len(),
            sv == samples_view(samples@),
            h.input() == le_bytes(file_size as nat, 8) + samples_input(sv.take(k as int)),
        decreases samples@.len() - k,
    {
        let ghost before = h.input();
        let offset_bytes = u64_le_bytes(samples[k].0);
        h.update(offset_bytes.as_slice());
        h.update(samples[k].1.as_slice());
        proof {
            let t = sv.take(k + 1);
            assert(t.drop_last() =~= sv.take(k as int));
            assert(t.last() == sv[k as int]);
            assert(h.input() =~= le_bytes(file_size as nat, 8) + samples_input(t));
        }
        k = k + 1;
    }
    assert(sv.take(samples@.len() as int) =~= sv);
    h.digest()
}

/// The length of each sample: [`PARTIAL_HASH_BYTES`], or the whole of a
/// shorter file.
pub open spec fn sample_len(file_size: u64) -> u64 {
    if file_size < PARTIAL_HASH_BYTES {
        file_size
    } else {
        PARTIAL_HASH_BYTES
    }
}

/// `a - b`, or `0` where `b` is larger.
pub open spec fn saturating_diff(a: u64, b: u64) -> u64 {
    if a >= b {
        (a - b) as u64
    } else {
        0
    }
}

/// The offsets a sample is read at: the start, the middle less half a
/// sample, and the end less a sample; ascending, each once.
pub open spec fn sample_offsets(file_size: u64) -> Seq<u64> {
    let chunk = sample_len(file_size);
    let mid = saturating_diff(file_size / 2, chunk / 2);
    let tail = saturating_diff(file_size, chunk);
    let with_mid = if mid != 0 { seq![0u64, mid] } else { seq![0u64] };
    if tail != with_mid.last() {
        with_mid.push(tail)
    } else {
        with_mid
    }
}

/// The length of each sample of a file (see [`sample_len`]).
pub fn partial_sample_len(file_size: u64) -> (r: u64)
    ensures
        r == sample_len(file_size),
{
    if file_size < PARTIAL_HASH_BYTES {
        file_size
    } else {
        PARTIAL_HASH_BYTES
    }
}

/// The offsets samples are read at (see [`sample_offsets`]).
pub fn partial_offsets(file_size: u64) -> (r: Vec<u64>)
    ensures
        r@ == sample_offsets(file_size),
        forall|a: int, b: int| 0 <= a < b < r@.len() ==> #[trigger] r@[a] < #[trigger] r@[b],
{
    let chunk = partial_sample_len(file_size);
    let half = file_size / 2;
    let mid = if half >= chunk / 2 { half - chunk / 2 } else { 0 };
    let tail = if file_size >= chunk { file_size - chunk } else { 0 };
    assert(mid <= tail) by {
        if chunk == file_size {
            assert(mid == 0);
        } else {
            assert(chunk == PARTIAL_HASH_BYTES && file_size > chunk);
        }
    }
    let mut out: Vec<u64> = Vec::new();
    out.push(0);
    if mid != 0 {
        out.push(mid);
    }
    let last = out[out.len() - 1];
    if tail != last {
        out.push(tail);
    }
    assert(out@ =~= sample_offsets(file_size));
    out
}

// ---------------------------------------------------------------------------
// Running searches
// ---------------------------------------------------------------------------

/// The searches running, one per root, each with the token that cancels it.
pub struct DuplicateScanRegistry {
    scans: Vec<(String, CancellationToken)>,
    next_serial: u64,
}

impl DuplicateScanRegistry {
    /// The keys of the roots with a running search, in registration order.
    pub closed spec fn keys(&self) -> Seq<Seq<char>> {
        Seq::new(self.scans@.len(), |k: int| self.scans@[k].0@)
    }

    /// No root is registered twice, and every search's serial was issued
    /// before the next one to issue.
    pub open spec fn wf(&self) -> bool {
        &&& forall|a: int, b: int| 0 <= a < b < self.keys().len() ==> self.keys()[a] != self.keys()[b]
        &&& self.serials().len() == self.keys().len()
        &&& forall|a: int|
            0 <= a < self.serials().len() ==> #[trigger] self.serials()[a] < self.next_serial_of()
                || self.next_serial_of() == u64::MAX
    }

    /// The session serials of the running searches, in the order of
    /// [`Self::keys`].
    pub closed spec fn serials(&self) -> Seq<u64> {
        Seq::new(self.scans@.len(), |k: int| self.scans@[k].1.serial_of())
    }

    /// The serial the next search gets.
    pub closed spec fn next_serial_of(&self) -> u64 {
        self.next_serial
    }

    /// The cancellation flags of the running searches, in the order of
    /// [`Self::keys`].
    pub closed spec fn flags(&self) -> Seq<std::sync::Arc<std::sync::atomic::AtomicBool>> {
        Seq::new(self.scans@.len(), |k: int| self.scans@[k].1.flag_of())
    }

    /// A registry with no search running.
    pub fn new() -> (r: DuplicateScanRegistry)
        ensures
            r.wf(),
            r.keys() == Seq::<Seq<char>>::empty(),
            r.next_serial_of() == 1,
    {
        let r = DuplicateScanRegistry { scans: Vec::new(), next_serial: 1 };
        assert(r.keys() =~= Seq::<Seq<char>>::empty());
        r
    }

    /// How many roots have a running search.
    pub fn len(&self) -> (r: usize)
        ensures
            r == self.keys().len(),
    {
        self.scans.len()
    }

    fn position_of(&self, key: &str) -> (r: Option<usize>)
        ensures
            match r {
                Some(i) => i < self.keys().len() && self.keys()[i as int] == key@,
                None => !self.keys().contains(key@),
            },
    {
        let mut i: usize = 0;
        while i < self.scans.len()
            invariant
                i <= self.scans@.len(),
                forall|k: int| 0 <= k < i ==> self.keys()[k] != key@,
            decreases self.scans@.len() - i,
        {
            if str_eq(self.scans[i].0.as_str(), key) {
                return Some(i);
            }
            i = i + 1;
        }
        None
    }

    /// Registers a new search of `root_path` (under [`session_key`]) and
    /// returns its token, which carries the next serial (counting stops at
    /// the largest `u64`); a search of the same root already running is
    /// cancelled and replaced.
    pub fn begin_scan(&mut self, root_path: &str) -> (r: CancellationToken)
        requires
            old(self).wf(),
        ensures
            final(self).wf(),
            final(self).keys() == if old(self).keys().contains(session_key(root_path@)) {
                old(self).keys()
            } else {
                old(self).keys().push(session_key(root_path@))
            },
            final(self).flags().len() == final(self).keys().len(),
            final(self).flags()[final(self).keys().index_of(session_key(root_path@))] == r.flag_of(),
            r.serial_of() == old(self).next_serial_of(),
            final(self).serials()[final(self).keys().index_of(session_key(root_path@))] == r.serial_of(),
            final(self).next_serial_of() == if old(self).next_serial_of() < u64::MAX {
                (old(self).next_serial_of() + 1) as u64
            } else {
                old(self).next_serial_of()
            },
    {
        let key = normalize_key(root_path);
        let token = CancellationToken::for_session(self.next_serial);
        let ghost pos: int;
        match self.position_of(key.as_str()) {
            Some(i) => {
                self.scans[i].1.cancel();
                let ghost before = self.keys();
                let entry = (key, token.child());
                self.scans.set(i, entry);
                assert(self.keys() =~= before);
                proof {
                    pos = i as int;
                }
            },
            None => {
                let ghost before = self.keys();
                self.scans.push((key, token.child()));
                assert(self.keys() =~= before.push(session_key(root_path@)));
                proof {
                    pos = before.len() as int;
                }
            },
        }
        proof {
            let ks = self.keys();
            let kk = session_key(root_path@);
            assert(ks[pos] == kk);
            assert(ks.contains(kk));
            let j = ks.index_of(kk);
            assert(0 <= j < ks.len() && ks[j] == kk);
            if j != pos {
                if j < pos {
                    assert(ks[j] != ks[pos]);
                } else {
                    assert(ks[pos] != ks[j]);
                }
            }
            assert(self.flags()[pos] == self.scans@[pos].1.flag_of());
            assert(self.serials()[pos] == self.scans@[pos].1.serial_of());
        }
        let ghost mid = self.serials();
        let ghost n0 = self.next_serial;
        if self.next_serial < u64::MAX {
            self.next_serial = self.next_serial + 1;
        }
        proof {
            assert forall|a: int| 0 <= a < self.serials().len() implies #[trigger] self.serials()[a]
                < self.next_serial_of() || self.next_serial_of() == u64::MAX by {
                assert(self.serials()[a] == mid[a]);
                if a != pos {
                    assert(self.scans@[a] == old(self).scans@[a]);
                    assert(old(self).serials()[a] == mid[a]);
                }
            }
        }
        token
    }

    /// Ends the registration of `root_path` when the search registered for
    /// it is the one `token` belongs to (the same serial); otherwise
    /// changes nothing, so a token of a replaced search never ends the
    /// search that replaced it.
    pub fn finish_scan(&mut self, root_path: &str, token: &CancellationToken)
        requires
            old(self).wf(),
        ensures
            final(self).wf(),
            final(self).next_serial_of() == old(self).next_serial_of(),
            !old(self).keys().contains(session_key(root_path@)) ==> final(self).keys() == old(self).keys(),
            old(self).keys().contains(session_key(root_path@)) ==> ({
                let i = old(self).keys().index_of(session_key(root_path@));
                if old(self).serials()[i] == token.serial_of() {
                    &&& final(self).keys() == old(self).keys().remove(i)
                    &&& final(self).serials() == old(self).serials().remove(i)
                } else {
                    &&& final(self).keys() == old(self).keys()
                    &&& final(self).serials() == old(self).serials()
                }
            }),
    {
        let key = normalize_key(root_path);
        match self.position_of(key.as_str()) {
            Some(i) => {
                let ghost before0 = self.keys();
                proof {
                    let j = before0.index_of(key@);
                    assert(before0.contains(key@));
                    assert(0 <= j < before0.len() && before0[j] == key@);
                    if j != i {
                        if j < i {
                            assert(before0[j] != before0[i as int]);
                        } else {
                            assert(before0[i as int] != before0[j]);
                        }
                    }
                }
                let ghost sbefore = self.serials();
                if self.scans[i].1.same_session(token) {
                    let ghost before = self.keys();
                    proof {
                        assert(0 <= i < before.len() && before[i as int] == key@);
                        let j = before.index_of(key@);
                        assert(0 <= j < before.len() && before[j] == key@);
                        if j != i {
                            if j < i {
                                assert(before[j] != before[i as int]);
                            } else {
                                assert(before[i as int] != before[j]);
                            }
                        }
                    }
                    let _ = self.scans.remove(i);
                    assert(self.keys() =~= before.remove(i as int));
                    assert(self.serials() =~= sbefore.remove(i as int));
                }
            },
            None => {},
        }
    }

    /// Cancels the search registered for `root_path`, if any.
    pub fn cancel(&self, root_path: &str) {
        let key = normalize_key(root_path);
        match self.position_of(key.as_str()) {
            Some(i) => {
                self.scans[i].1.cancel();
            },
            None => {},
        }
    }
}

// ---------------------------------------------------------------------------
// Laws
// ---------------------------------------------------------------------------

pub proof fn lemma_members_upto(hashes: Seq<Option<u64>>, h: u64, n: int)
    requires
        0 <= n <= hashes.len(),
    ensures
        forall|q: int| 0 <= q < members_upto(hashes, h, n).len() ==> 0 <= #[trigger] members_upto(hashes, h, n)[q] < n
            && hashes[members_upto(hashes, h, n)[q]] == Some(h),
        forall|a: int, b: int| 0 <= a < b < members_upto(hashes, h, n).len() ==> #[trigger] members_upto(hashes, h, n)[a]
            < #[trigger] members_upto(hashes, h, n)[b],
    decreases n,
{
    if n > 0 {
        lemma_members_upto(hashes, h, n - 1);
    }
}

pub proof fn lemma_hash_groups_upto(hashes: Seq<Option<u64>>, k: int)
    requires
        0 <= k <= first_hashes(hashes, hashes.len() as int).len(),
    ensures
        forall|g: int| 0 <= g < hash_groups_upto(hashes, k).len() ==> exists|h: u64| #[trigger] hash_groups_upto(hashes, k)[g]
            == members_upto(hashes, h, hashes.len() as int),
        forall|g: int| 0 <= g < hash_groups_upto(hashes, k).len() ==> (#[trigger] hash_groups_upto(hashes, k)[g]).len() >= 2,
    decreases k,
{
    if k > 0 {
        lemma_hash_groups_upto(hashes, k - 1);
        let h = first_hashes(hashes, hashes.len() as int)[k - 1];
        let m = members_upto(hashes, h, hashes.len() as int);
        let prev = hash_groups_upto(hashes, k - 1);
        if m.len() >= 2 {
            assert forall|g: int| 0 <= g < prev.push(m).len() implies exists|h2: u64| #[trigger] prev.push(m)[g]
                == members_upto(hashes, h2, hashes.len() as int) by {
                if g < prev.len() {
                    assert(prev.push(m)[g] == prev[g]);
                } else {
                    assert(prev.push(m)[g] == members_upto(hashes, h, hashes.len() as int));
                }
            }
        }
    }
}

/// Every listed position is within `hashes` and has hash `h`.
pub open spec fn all_hashed_as(hashes: Seq<Option<u64>>, positions: Seq<int>, h: u64) -> bool {
    forall|q: int| 0 <= q < positions.len() ==> 0 <= #[trigger] positions[q] < hashes.len() && hashes[positions[q]] == Some(h)
}

/// Every group of a split by hash has at least two members, listed in
/// ascending order, and all of them have one and the same hash.
pub proof fn law_hash_groups_share_one_hash(hashes: Seq<Option<u64>>, g: int)
    requires
        0 <= g < hash_groups(hashes).len(),
    ensures
        hash_groups(hashes)[g].len() >= 2,
        forall|a: int, b: int| 0 <= a < b < hash_groups(hashes)[g].len() ==> #[trigger] hash_groups(hashes)[g][a]
            < #[trigger] hash_groups(hashes)[g][b],
        exists|h: u64| #[trigger] all_hashed_as(hashes, hash_groups(hashes)[g], h),
{
    lemma_hash_groups_upto(hashes, first_hashes(hashes, hashes.len() as int).len() as int);
    let grp = hash_groups(hashes)[g];
    let h = choose|h: u64| grp == members_upto(hashes, h, hashes.len() as int);
    lemma_members_upto(hashes, h, hashes.len() as int);
    assert forall|q: int| 0 <= q < grp.len() implies 0 <= #[trigger] grp[q] < hashes.len() && hashes[grp[q]] == Some(h) by {}
    assert(all_hashed_as(hashes, grp, h));
}

/// The files of a size bucket all have the bucket's size, are at least the
/// minimum size and are no links.
pub proof fn law_bucket_members_share_size(cands: Seq<FileInfo>, min_size: u64, size: u64, q: int)
    requires
        0 <= q < of_size(cands, min_size, size).len(),
    ensures
        0 <= of_size(cands, min_size, size)[q] < cands.len(),
        cands[of_size(cands, min_size, size)[q]].size == size,
        size >= min_size,
        !cands[of_size(cands, min_size, size)[q]].is_symlink,
{
    lemma_of_size_bounds(cands, min_size, size, cands.len() as int);
}

/// Groups ordered by waste come largest waste first.
pub proof fn law_waste_order_is_descending(groups: Seq<DuplicateGroup>, p: Seq<usize>, a: int, b: int)
    requires
        is_stable_key_order(waste_keys(groups), p),
        0 <= a < b < p.len(),
    ensures
        groups[p[a] as int].wasted_bytes >= groups[p[b] as int].wasted_bytes,
{
    assert(crate::by_size::key_before(waste_keys(groups)[p[a] as int], p[a] as int, waste_keys(groups)[p[b] as int], p[b] as int));
}

/// Every sample lies within the file: an offset plus the sample length is
/// at most the file size.
pub proof fn law_samples_within_file(file_size: u64, k: int)
    requires
        0 <= k < sample_offsets(file_size).len(),
    ensures
        sample_offsets(file_size)[k] + sample_len(file_size) <= file_size,
{
    let chunk = sample_len(file_size);
    let mid = saturating_diff(file_size / 2, chunk / 2);
    let tail = saturating_diff(file_size, chunk);
    assert(mid + chunk <= file_size);
    assert(tail + chunk <= file_size);
}

} // verus!
