//! Totals over directory trees: sums over children, the subtotal invariant
//! every merged tree keeps, and the size ordering of siblings.
use vstd::prelude::*;
use crate::file_info::DirectoryNode;
use crate::path_utils::path_key;
use vstd::multiset::Multiset;

verus! {

pub open spec fn sat_u64(x: int) -> int {
    if x > u64::MAX as int { u64::MAX as int } else { x }
}

pub open spec fn sat_usize(x: int) -> int {
    if x > usize::MAX as int { usize::MAX as int } else { x }
}

/// Sum of `f` over a sequence of nodes.
pub open spec fn sum_by(s: Seq<DirectoryNode>, f: spec_fn(DirectoryNode) -> int) -> int
    decreases s.len(),
{
    if s.len() == 0 {
        0
    } else {
        sum_by(s.drop_last(), f) + f(s.last())
    }
}

pub open spec fn size_of(n: DirectoryNode) -> int {
    n.size as int
}

pub open spec fn files_of(n: DirectoryNode) -> int {
    n.file_count as int
}

pub open spec fn dirs_of(n: DirectoryNode) -> int {
    n.dir_count as int
}

pub open spec fn sum_size(s: Seq<DirectoryNode>) -> int {
    sum_by(s, |n: DirectoryNode| size_of(n))
}

pub open spec fn sum_files(s: Seq<DirectoryNode>) -> int {
    sum_by(s, |n: DirectoryNode| files_of(n))
}

pub open spec fn sum_dirs(s: Seq<DirectoryNode>) -> int {
    sum_by(s, |n: DirectoryNode| dirs_of(n))
}

/// The own (direct-file) totals recorded for a key: the caller's override
/// first, then the recorded table.
pub open spec fn own_entry(
    ov: Map<Seq<char>, (u64, usize)>,
    cached: Map<Seq<char>, (u64, usize)>,
    k: Seq<char>,
) -> Option<(u64, usize)> {
    if ov.contains_key(k) {
        Some(ov[k])
    } else if cached.contains_key(k) {
        Some(cached[k])
    } else {
        None
    }
}

/// One directory's totals equal its own part plus the totals of its
/// children (saturating at the integer bounds); without a recorded own part,
/// the totals are at least the children's.
pub open spec fn totals_ok(
    n: DirectoryNode,
    ov: Map<Seq<char>, (u64, usize)>,
    cached: Map<Seq<char>, (u64, usize)>,
) -> bool {
    let ch = n.children@;
    &&& n.dir_count == sat_usize(1 + sum_dirs(ch))
    &&& n.has_children == (ch.len() > 0)
    &&& match own_entry(ov, cached, path_key(n.path@)) {
        Some(e) => n.size == sat_u64(e.0 + sum_size(ch)) && n.file_count == sat_usize(
            e.1 + sum_files(ch),
        ),
        None => n.size >= sat_u64(sum_size(ch)) && n.file_count >= sat_usize(sum_files(ch)),
    }
}

/// Every node of a forest keeps [`totals_ok`].
pub open spec fn tree_ok(
    s: Seq<DirectoryNode>,
    ov: Map<Seq<char>, (u64, usize)>,
    cached: Map<Seq<char>, (u64, usize)>,
) -> bool
    decreases s,
{
    if s.len() == 0 {
        true
    } else {
        proof {
            assert(decreases_to!(s => s.last()));
        }
        tree_ok(s.drop_last(), ov, cached) && tree_ok(s.last().children@, ov, cached) && totals_ok(
            s.last(),
            ov,
            cached,
        )
    }
}

/// Siblings are ordered by size, largest first.
pub open spec fn sorted_by_size(s: Seq<DirectoryNode>) -> bool {
    forall|i: int, j: int| 0 <= i < j < s.len() ==> s[i].size >= s[j].size
}

/// Siblings are ordered by size at every level of a forest.
pub open spec fn tree_sorted(s: Seq<DirectoryNode>) -> bool
    decreases s,
{
    if s.len() == 0 {
        true
    } else {
        proof {
            assert(decreases_to!(s => s.last()));
        }
        &&& tree_sorted(s.drop_last())
        &&& tree_sorted(s.last().children@)
        &&& sorted_by_size(s.last().children@)
    }
}

/// Every top-level node other than the one keyed `root_key` keeps
/// [`totals_ok`] together with its whole subtree.
pub open spec fn forest_ok_except(
    s: Seq<DirectoryNode>,
    root_key: Seq<char>,
    ov: Map<Seq<char>, (u64, usize)>,
    cached: Map<Seq<char>, (u64, usize)>,
) -> bool {
    forall|i: int|
        0 <= i < s.len() && path_key(s[i].path@) != root_key ==> (#[trigger] tree_ok(
            s[i].children@,
            ov,
            cached,
        ) && totals_ok(s[i], ov, cached))
}

// ---------------------------------------------------------------------------
// Lemmas
// ---------------------------------------------------------------------------

/// Number of nodes in a forest.
pub open spec fn forest_count(s: Seq<DirectoryNode>) -> nat
    decreases s,
{
    if s.len() == 0 {
        0
    } else {
        proof {
            assert(decreases_to!(s => s.last()));
        }
        forest_count(s.drop_last()) + 1 + forest_count(s.last().children@)
    }
}

/// The number of nodes a node stands for: itself and all below it.
pub open spec fn weight_of(n: DirectoryNode) -> int {
    1 + forest_count(n.children@) as int
}

pub proof fn lemma_forest_count_sum(s: Seq<DirectoryNode>)
    ensures
        forest_count(s) == sum_by(s, |n: DirectoryNode| weight_of(n)),
    decreases s.len(),
{
    if s.len() > 0 {
        lemma_forest_count_sum(s.drop_last());
    }
}

/// Number of nodes of a forest whose key is `k`.
pub open spec fn key_count(s: Seq<DirectoryNode>, k: Seq<char>) -> nat
    decreases s,
{
    if s.len() == 0 {
        0
    } else {
        proof {
            assert(decreases_to!(s => s.last()));
        }
        key_count(s.drop_last(), k) + (if path_key(s.last().path@) == k { 1nat } else { 0nat }) + key_count(
            s.last().children@,
            k,
        )
    }
}


/// One when a node is keyed `k`, else zero.
pub open spec fn key_is(n: DirectoryNode, k: Seq<char>) -> int {
    if path_key(n.path@) == k {
        1
    } else {
        0
    }
}

/// Number of top-level nodes of a forest keyed `k`.
pub open spec fn top_count(s: Seq<DirectoryNode>, k: Seq<char>) -> int {
    sum_by(s, |n: DirectoryNode| key_is(n, k))
}

/// Number of pairs, at any depth of a forest, of a node keyed `pk` and a
/// child of it keyed `ck`.
pub open spec fn link_count(s: Seq<DirectoryNode>, pk: Seq<char>, ck: Seq<char>) -> int
    decreases s,
{
    if s.len() == 0 {
        0
    } else {
        proof {
            assert(decreases_to!(s => s.last()));
        }
        link_count(s.drop_last(), pk, ck) + (if path_key(s.last().path@) == pk {
            top_count(s.last().children@, ck)
        } else {
            0
        }) + link_count(s.last().children@, pk, ck)
    }
}

/// The pairs [`link_count`] finds at or below one node.
pub open spec fn link_weight(n: DirectoryNode, pk: Seq<char>, ck: Seq<char>) -> int {
    (if path_key(n.path@) == pk {
        top_count(n.children@, ck)
    } else {
        0
    }) + link_count(n.children@, pk, ck)
}

pub proof fn lemma_link_count_sum(s: Seq<DirectoryNode>, pk: Seq<char>, ck: Seq<char>)
    ensures
        link_count(s, pk, ck) == sum_by(s, |n: DirectoryNode| link_weight(n, pk, ck)),
    decreases s.len(),
{
    if s.len() > 0 {
        lemma_link_count_sum(s.drop_last(), pk, ck);
    }
}

pub proof fn lemma_top_count_nonneg(s: Seq<DirectoryNode>, k: Seq<char>)
    ensures
        top_count(s, k) >= 0,
{
    lemma_sum_nonneg(s, |n: DirectoryNode| key_is(n, k));
}

pub proof fn lemma_link_count_nonneg(s: Seq<DirectoryNode>, pk: Seq<char>, ck: Seq<char>)
    ensures
        link_count(s, pk, ck) >= 0,
    decreases s,
{
    if s.len() > 0 {
        assert(decreases_to!(s => s.last()));
        lemma_link_count_nonneg(s.drop_last(), pk, ck);
        lemma_link_count_nonneg(s.last().children@, pk, ck);
        lemma_top_count_nonneg(s.last().children@, ck);
    }
}

/// Two sequences whose nodes agree one by one under `f` have one sum.
pub proof fn lemma_sum_pointwise(a: Seq<DirectoryNode>, b: Seq<DirectoryNode>, f: spec_fn(DirectoryNode) -> int)
    requires
        a.len() == b.len(),
        forall|j: int| 0 <= j < a.len() ==> f(#[trigger] a[j]) == f(b[j]),
    ensures
        sum_by(a, f) == sum_by(b, f),
    decreases a.len(),
{
    if a.len() > 0 {
        assert forall|j: int| 0 <= j < a.drop_last().len() implies f(#[trigger] a.drop_last()[j]) == f(b.drop_last()[j]) by {
            assert(a.drop_last()[j] == a[j]);
            assert(b.drop_last()[j] == b[j]);
        }
        lemma_sum_pointwise(a.drop_last(), b.drop_last(), f);
        assert(f(a[a.len() - 1]) == f(b[b.len() - 1]));
    }
}

/// Pointwise nodes with one path and children of the same top-level and
/// link counts keep a forest's top-level and link counts, in any order.
pub proof fn lemma_links_reordered(orig: Seq<DirectoryNode>, pre: Seq<DirectoryNode>, fin: Seq<DirectoryNode>)
    requires
        orig.len() == pre.len(),
        forall|j: int| 0 <= j < orig.len() ==> #[trigger] same_links(orig[j], pre[j]),
        pre.to_multiset() == fin.to_multiset(),
    ensures
        forall|k: Seq<char>| #[trigger] top_count(fin, k) == top_count(orig, k),
        forall|pk: Seq<char>, ck: Seq<char>| #[trigger] link_count(fin, pk, ck) == link_count(orig, pk, ck),
{
    assert forall|k: Seq<char>| #[trigger] top_count(fin, k) == top_count(orig, k) by {
        assert forall|j: int| 0 <= j < orig.len() implies key_is(#[trigger] orig[j], k) == key_is(pre[j], k) by {
            assert(same_links(orig[j], pre[j]));
        }
        lemma_sum_pointwise(orig, pre, |n: DirectoryNode| key_is(n, k));
        lemma_sum_perm(pre, fin, |n: DirectoryNode| key_is(n, k));
    }
    assert forall|pk: Seq<char>, ck: Seq<char>| #[trigger] link_count(fin, pk, ck) == link_count(orig, pk, ck) by {
        assert forall|j: int| 0 <= j < orig.len() implies link_weight(#[trigger] orig[j], pk, ck) == link_weight(
            pre[j],
            pk,
            ck,
        ) by {
            assert(same_links(orig[j], pre[j]));
            assert(top_count(orig[j].children@, ck) == top_count(pre[j].children@, ck));
            assert(link_count(orig[j].children@, pk, ck) == link_count(pre[j].children@, pk, ck));
        }
        lemma_sum_pointwise(orig, pre, |n: DirectoryNode| link_weight(n, pk, ck));
        lemma_sum_perm(pre, fin, |n: DirectoryNode| link_weight(n, pk, ck));
        lemma_link_count_sum(orig, pk, ck);
        lemma_link_count_sum(fin, pk, ck);
    }
}

/// Two nodes of one path whose children hold the same top-level counts and
/// link counts.
pub open spec fn same_links(a: DirectoryNode, b: DirectoryNode) -> bool {
    &&& a.path == b.path
    &&& forall|k: Seq<char>| #[trigger] top_count(a.children@, k) == top_count(b.children@, k)
    &&& forall|pk: Seq<char>, ck: Seq<char>| #[trigger] link_count(a.children@, pk, ck) == link_count(b.children@, pk, ck)
}

/// Number of nodes keyed `k` at or below a node.
pub open spec fn key_weight(n: DirectoryNode, k: Seq<char>) -> int {
    (if path_key(n.path@) == k { 1int } else { 0int }) + key_count(n.children@, k) as int
}

pub proof fn lemma_key_count_sum(s: Seq<DirectoryNode>, k: Seq<char>)
    ensures
        key_count(s, k) == sum_by(s, |n: DirectoryNode| key_weight(n, k)),
    decreases s.len(),
{
    if s.len() > 0 {
        lemma_key_count_sum(s.drop_last(), k);
    }
}

/// A sum over nodes does not depend on their order.
pub proof fn lemma_sum_perm(a: Seq<DirectoryNode>, b: Seq<DirectoryNode>, f: spec_fn(DirectoryNode) -> int)
    requires
        a.to_multiset() == b.to_multiset(),
    ensures
        sum_by(a, f) == sum_by(b, f),
    decreases a.len(),
{
    a.to_multiset_ensures();
    b.to_multiset_ensures();
    if a.len() == 0 {
        assert(b.len() == 0);
    } else {
        let x = a.last();
        assert(a.to_multiset().count(x) > 0);
        assert(b.to_multiset().count(x) > 0);
        let j = choose|j: int| 0 <= j < b.len() && b[j] == x;
        let b2 = b.remove(j);
        let a2 = a.drop_last();
        vstd::seq_lib::to_multiset_remove(b, j);
        assert(a2 =~= a.remove(a.len() - 1));
        vstd::seq_lib::to_multiset_remove(a, a.len() - 1);
        assert(a2.to_multiset() =~= b2.to_multiset());
        lemma_sum_perm(a2, b2, f);
        lemma_sum_remove(b, j, f);
    }
}

pub proof fn lemma_sum_concat(a: Seq<DirectoryNode>, b: Seq<DirectoryNode>, f: spec_fn(DirectoryNode) -> int)
    ensures
        sum_by(a + b, f) == sum_by(a, f) + sum_by(b, f),
    decreases b.len(),
{
    if b.len() == 0 {
        assert(a + b =~= a);
    } else {
        assert((a + b).drop_last() =~= a + b.drop_last());
        lemma_sum_concat(a, b.drop_last(), f);
    }
}

pub proof fn lemma_sum_take_one(s: Seq<DirectoryNode>, i: int, f: spec_fn(DirectoryNode) -> int)
    requires
        0 <= i < s.len(),
    ensures
        sum_by(s.take(i + 1), f) == sum_by(s.take(i), f) + f(s[i]),
{
    assert(s.take(i + 1).drop_last() =~= s.take(i));
}

pub proof fn lemma_sum_update(s: Seq<DirectoryNode>, i: int, x: DirectoryNode, f: spec_fn(DirectoryNode) -> int)
    requires
        0 <= i < s.len(),
    ensures
        sum_by(s.update(i, x), f) == sum_by(s, f) - f(s[i]) + f(x),
{
    let a = s.take(i);
    let b = s.skip(i + 1);
    assert(s =~= a + seq![s[i]] + b);
    assert(s.update(i, x) =~= a + seq![x] + b);
    lemma_sum_concat(a + seq![s[i]], b, f);
    lemma_sum_concat(a, seq![s[i]], f);
    lemma_sum_concat(a + seq![x], b, f);
    lemma_sum_concat(a, seq![x], f);
    assert(seq![s[i]].drop_last() =~= Seq::<DirectoryNode>::empty());
    assert(seq![x].drop_last() =~= Seq::<DirectoryNode>::empty());
}

pub proof fn lemma_sum_remove(s: Seq<DirectoryNode>, i: int, f: spec_fn(DirectoryNode) -> int)
    requires
        0 <= i < s.len(),
    ensures
        sum_by(s.remove(i), f) == sum_by(s, f) - f(s[i]),
{
    let a = s.take(i);
    let b = s.skip(i + 1);
    assert(s =~= a + seq![s[i]] + b);
    assert(s.remove(i) =~= a + b);
    lemma_sum_concat(a + seq![s[i]], b, f);
    lemma_sum_concat(a, seq![s[i]], f);
    lemma_sum_concat(a, b, f);
    assert(seq![s[i]].drop_last() =~= Seq::<DirectoryNode>::empty());
    reveal_with_fuel(sum_by, 2);
    assert(sum_by(seq![s[i]], f) == f(s[i]));
}

pub proof fn lemma_sum_insert(s: Seq<DirectoryNode>, i: int, x: DirectoryNode, f: spec_fn(DirectoryNode) -> int)
    requires
        0 <= i <= s.len(),
    ensures
        sum_by(s.insert(i, x), f) == sum_by(s, f) + f(x),
{
    let a = s.take(i);
    let b = s.skip(i);
    assert(s =~= a + b);
    assert(s.insert(i, x) =~= a + seq![x] + b);
    lemma_sum_concat(a + seq![x], b, f);
    lemma_sum_concat(a, seq![x], f);
    lemma_sum_concat(a, b, f);
    assert(seq![x].drop_last() =~= Seq::<DirectoryNode>::empty());
    reveal_with_fuel(sum_by, 2);
    assert(sum_by(seq![x], f) == f(x));
}

pub proof fn lemma_sum_push(s: Seq<DirectoryNode>, x: DirectoryNode, f: spec_fn(DirectoryNode) -> int)
    ensures
        sum_by(s.push(x), f) == sum_by(s, f) + f(x),
{
    assert(s.push(x).drop_last() =~= s);
}

pub proof fn lemma_sum_nonneg(s: Seq<DirectoryNode>, f: spec_fn(DirectoryNode) -> int)
    requires
        forall|n: DirectoryNode| #[trigger] f(n) >= 0,
    ensures
        sum_by(s, f) >= 0,
    decreases s.len(),
{
    if s.len() > 0 {
        lemma_sum_nonneg(s.drop_last(), f);
    }
}

/// [`tree_ok`] read element by element.
proof fn lemma_tree_ok_elim(
    s: Seq<DirectoryNode>,
    ov: Map<Seq<char>, (u64, usize)>,
    cached: Map<Seq<char>, (u64, usize)>,
    i: int,
)
    requires
        tree_ok(s, ov, cached),
        0 <= i < s.len(),
    ensures
        tree_ok(s[i].children@, ov, cached),
        totals_ok(s[i], ov, cached),
    decreases s.len(),
{
    assert(decreases_to!(s => s.last()));
    if i < s.len() - 1 {
        assert(s.drop_last()[i] == s[i]);
        lemma_tree_ok_elim(s.drop_last(), ov, cached, i);
    }
}

proof fn lemma_tree_ok_intro(
    s: Seq<DirectoryNode>,
    ov: Map<Seq<char>, (u64, usize)>,
    cached: Map<Seq<char>, (u64, usize)>,
)
    requires
        forall|i: int|
            0 <= i < s.len() ==> (#[trigger] tree_ok(s[i].children@, ov, cached) && totals_ok(
                s[i],
                ov,
                cached,
            )),
    ensures
        tree_ok(s, ov, cached),
    decreases s.len(),
{
    if s.len() > 0 {
        let d = s.drop_last();
        assert forall|i: int| 0 <= i < d.len() implies (#[trigger] tree_ok(d[i].children@, ov, cached)
            && totals_ok(d[i], ov, cached)) by {
            assert(d[i] == s[i]);
            assert(tree_ok(s[i].children@, ov, cached));
        }
        lemma_tree_ok_intro(d, ov, cached);
        assert(decreases_to!(s => s.last()));
        assert(tree_ok(s[s.len() - 1].children@, ov, cached));
    }
}

/// [`tree_ok`] read element by element.
pub proof fn lemma_tree_ok_forall(
    s: Seq<DirectoryNode>,
    ov: Map<Seq<char>, (u64, usize)>,
    cached: Map<Seq<char>, (u64, usize)>,
)
    ensures
        tree_ok(s, ov, cached) <==> forall|i: int|
            0 <= i < s.len() ==> (#[trigger] tree_ok(s[i].children@, ov, cached) && totals_ok(
                s[i],
                ov,
                cached,
            )),
{
    if tree_ok(s, ov, cached) {
        assert forall|i: int| 0 <= i < s.len() implies (#[trigger] tree_ok(s[i].children@, ov, cached)
            && totals_ok(s[i], ov, cached)) by {
            lemma_tree_ok_elim(s, ov, cached, i);
        }
    }
    if forall|i: int|
        0 <= i < s.len() ==> (#[trigger] tree_ok(s[i].children@, ov, cached) && totals_ok(
            s[i],
            ov,
            cached,
        )) {
        lemma_tree_ok_intro(s, ov, cached);
    }
}

/// [`tree_sorted`] holds of each element of a sorted forest.
pub proof fn lemma_tree_sorted_elim(s: Seq<DirectoryNode>, i: int)
    requires
        tree_sorted(s),
        0 <= i < s.len(),
    ensures
        tree_sorted(s[i].children@),
        sorted_by_size(s[i].children@),
    decreases s.len(),
{
    assert(decreases_to!(s => s.last()));
    if i < s.len() - 1 {
        assert(s.drop_last()[i] == s[i]);
        lemma_tree_sorted_elim(s.drop_last(), i);
    }
}

/// A forest whose every element is sorted is [`tree_sorted`].
pub proof fn lemma_tree_sorted_intro(s: Seq<DirectoryNode>)
    requires
        forall|i: int| 0 <= i < s.len() ==> (#[trigger] tree_sorted(s[i].children@) && sorted_by_size(s[i].children@)),
    ensures
        tree_sorted(s),
    decreases s.len(),
{
    if s.len() > 0 {
        let d = s.drop_last();
        assert forall|i: int| 0 <= i < d.len() implies (#[trigger] tree_sorted(d[i].children@) && sorted_by_size(d[i].children@)) by {
            assert(d[i] == s[i]);
        }
        lemma_tree_sorted_intro(d);
        assert(decreases_to!(s => s.last()));
        assert(tree_sorted(s[s.len() - 1].children@));
    }
}

// ---------------------------------------------------------------------------
// Executable sums
// ---------------------------------------------------------------------------

/// Saturating totals of the children: (size, file count, dir count).
pub fn child_totals(children: &Vec<DirectoryNode>) -> (r: (u64, usize, usize))
    ensures
        r.0 == sat_u64(sum_size(children@)),
        r.1 == sat_usize(sum_files(children@)),
        r.2 == sat_usize(sum_dirs(children@)),
{
    let mut s: u64 = 0;
    let mut f: usize = 0;
    let mut d: usize = 0;
    let mut i: usize = 0;
    while i < children.len()
        invariant
            i <= children.len(),
            s == sat_u64(sum_size(children@.take(i as int))),
            f == sat_usize(sum_files(children@.take(i as int))),
            d == sat_usize(sum_dirs(children@.take(i as int))),
        decreases children.len() - i,
    {
        proof {
            lemma_sum_take_one(children@, i as int, |n: DirectoryNode| size_of(n));
            lemma_sum_take_one(children@, i as int, |n: DirectoryNode| files_of(n));
            lemma_sum_take_one(children@, i as int, |n: DirectoryNode| dirs_of(n));
            lemma_sum_nonneg(children@.take(i as int), |n: DirectoryNode| size_of(n));
            lemma_sum_nonneg(children@.take(i as int), |n: DirectoryNode| files_of(n));
            lemma_sum_nonneg(children@.take(i as int), |n: DirectoryNode| dirs_of(n));
        }
        s = s.saturating_add(children[i].size);
        f = f.saturating_add(children[i].file_count);
        d = d.saturating_add(children[i].dir_count);
        i = i + 1;
    }
    assert(children@.take(children.len() as int) =~= children@);
    (s, f, d)
}

// ---------------------------------------------------------------------------
// Sorting
// ---------------------------------------------------------------------------

/// Stable sort of siblings by size, largest first, at the given level only.
pub fn sort_level_by_size(nodes: &mut Vec<DirectoryNode>)
    ensures
        final(nodes)@.len() == old(nodes)@.len(),
        sorted_by_size(final(nodes)@),
        sum_size(final(nodes)@) == sum_size(old(nodes)@),
        sum_files(final(nodes)@) == sum_files(old(nodes)@),
        sum_dirs(final(nodes)@) == sum_dirs(old(nodes)@),
        final(nodes)@.to_multiset() == old(nodes)@.to_multiset(),
{
    let n = nodes.len();
    let mut i: usize = 1;
    if n == 0 {
        return;
    }
    while i < n
        invariant
            1 <= i <= n,
            nodes.len() == n,
            sorted_by_size(nodes@.take(i as int)),
            sum_size(nodes@) == sum_size(old(nodes)@),
            sum_files(nodes@) == sum_files(old(nodes)@),
            sum_dirs(nodes@) == sum_dirs(old(nodes)@),
            nodes@.to_multiset() == old(nodes)@.to_multiset(),
        decreases n - i,
    {
        let mut j: usize = i;
        assert forall|a: int, b: int| 0 <= a < b <= i && a != j && b != j implies #[trigger] nodes@[a].size >= #[trigger] nodes@[b].size by {
            assert(nodes@.take(i as int)[a] == nodes@[a]);
            assert(nodes@.take(i as int)[b] == nodes@[b]);
        }
        while j > 0 && nodes[j - 1].size < nodes[j].size
            invariant
                0 <= j <= i < n,
                nodes.len() == n,
                // the prefix without position j is sorted, and j is below its left part
                forall|a: int, b: int|
                    0 <= a < b <= i && a != j && b != j ==> nodes@[a].size >= nodes@[b].size,
                forall|b: int| j < b <= i ==> nodes@[j as int].size > nodes@[b].size,
                sum_size(nodes@) == sum_size(old(nodes)@),
                sum_files(nodes@) == sum_files(old(nodes)@),
                sum_dirs(nodes@) == sum_dirs(old(nodes)@),
                nodes@.to_multiset() == old(nodes)@.to_multiset(),
            decreases j,
        {
            let ghost before = nodes@;
            let x = nodes.remove(j);
            nodes.insert(j - 1, x);
            proof {
                let f1 = |n: DirectoryNode| size_of(n);
                let f2 = |n: DirectoryNode| files_of(n);
                let f3 = |n: DirectoryNode| dirs_of(n);
                lemma_sum_remove(before, j as int, f1);
                lemma_sum_insert(before.remove(j as int), j - 1, x, f1);
                lemma_sum_remove(before, j as int, f2);
                lemma_sum_insert(before.remove(j as int), j - 1, x, f2);
                lemma_sum_remove(before, j as int, f3);
                lemma_sum_insert(before.remove(j as int), j - 1, x, f3);
                vstd::seq_lib::to_multiset_remove(before, j as int);
                vstd::seq_lib::to_multiset_insert(before.remove(j as int), j - 1, x);
                before.to_multiset_ensures();
                assert(before.to_multiset().contains(x));
                assert(before.to_multiset().remove(x).insert(x) =~= before.to_multiset());
                assert(nodes@ =~= before.update(j - 1, before[j as int]).update(
                    j as int,
                    before[j - 1],
                ));
            }
            j = j - 1;
        }
        proof {
            assert forall|a: int, b: int|
                0 <= a < b < i + 1 implies #[trigger] nodes@.take(i + 1)[a].size >= #[trigger] nodes@.take(
                i + 1,
            )[b].size by {
                if a == j && b > j {
                } else if b == j {
                    if j > 0 {
                    }
                }
            }
        }
        i = i + 1;
    }
    assert(nodes@.take(n as int) =~= nodes@);
}


/// Everything of a node but the order of its children is as before.
pub open spec fn same_but_child_order(a: DirectoryNode, b: DirectoryNode) -> bool {
    &&& a.path == b.path
    &&& a.name == b.name
    &&& a.size == b.size
    &&& a.file_count == b.file_count
    &&& a.dir_count == b.dir_count
    &&& a.is_symlink == b.is_symlink
    &&& a.link_target == b.link_target
    &&& a.safety == b.safety
    &&& a.modified_time == b.modified_time
    &&& a.file_id == b.file_id
    &&& a.children.len() == b.children.len()
    &&& sum_size(a.children@) == sum_size(b.children@)
    &&& sum_files(a.children@) == sum_files(b.children@)
    &&& sum_dirs(a.children@) == sum_dirs(b.children@)
    &&& forest_count(a.children@) == forest_count(b.children@)
    &&& forall|k: Seq<char>| #[trigger] key_count(a.children@, k) == key_count(b.children@, k)
    &&& same_links(a, b)
}

pub proof fn lemma_tree_ok_multiset(
    a: Seq<DirectoryNode>,
    b: Seq<DirectoryNode>,
    ov: Map<Seq<char>, (u64, usize)>,
    cached: Map<Seq<char>, (u64, usize)>,
)
    requires
        a.to_multiset() == b.to_multiset(),
        tree_ok(a, ov, cached),
    ensures
        tree_ok(b, ov, cached),
{
    lemma_tree_ok_forall(a, ov, cached);
    lemma_tree_ok_forall(b, ov, cached);
    a.to_multiset_ensures();
    b.to_multiset_ensures();
    assert forall|i: int| 0 <= i < b.len() implies (#[trigger] tree_ok(b[i].children@, ov, cached)
        && totals_ok(b[i], ov, cached)) by {
        assert(b.to_multiset().count(b[i]) > 0);
        assert(a.to_multiset().count(b[i]) > 0);
        let k = choose|k: int| 0 <= k < a.len() && a[k] == b[i];
        assert(tree_ok(a[k].children@, ov, cached));
    }
}

proof fn lemma_weight_pointwise(a: Seq<DirectoryNode>, b: Seq<DirectoryNode>)
    requires
        a.len() == b.len(),
        forall|j: int| 0 <= j < a.len() ==> #[trigger] same_but_child_order(a[j], b[j]),
    ensures
        sum_by(a, |n: DirectoryNode| weight_of(n)) == sum_by(b, |n: DirectoryNode| weight_of(n)),
    decreases a.len(),
{
    if a.len() > 0 {
        assert(same_but_child_order(a[a.len() - 1], b[b.len() - 1]));
        assert forall|j: int| 0 <= j < a.drop_last().len() implies #[trigger] same_but_child_order(
            a.drop_last()[j],
            b.drop_last()[j],
        ) by {
            assert(same_but_child_order(a[j], b[j]));
        }
        lemma_weight_pointwise(a.drop_last(), b.drop_last());
    }
}

proof fn lemma_key_weight_pointwise(a: Seq<DirectoryNode>, b: Seq<DirectoryNode>, k: Seq<char>)
    requires
        a.len() == b.len(),
        forall|j: int| 0 <= j < a.len() ==> #[trigger] same_but_child_order(a[j], b[j]),
    ensures
        sum_by(a, |n: DirectoryNode| key_weight(n, k)) == sum_by(b, |n: DirectoryNode| key_weight(n, k)),
    decreases a.len(),
{
    if a.len() > 0 {
        assert(same_but_child_order(a[a.len() - 1], b[b.len() - 1]));
        assert(key_count(a[a.len() - 1].children@, k) == key_count(b[b.len() - 1].children@, k));
        assert forall|j: int| 0 <= j < a.drop_last().len() implies #[trigger] same_but_child_order(
            a.drop_last()[j],
            b.drop_last()[j],
        ) by {
            assert(same_but_child_order(a[j], b[j]));
        }
        lemma_key_weight_pointwise(a.drop_last(), b.drop_last(), k);
    }
}

/// Key counts are kept when each node keeps its key counts and the list is
/// reordered.
proof fn lemma_key_count_sorted(orig: Seq<DirectoryNode>, pre: Seq<DirectoryNode>, fin: Seq<DirectoryNode>)
    requires
        orig.len() == pre.len(),
        forall|j: int| 0 <= j < orig.len() ==> #[trigger] same_but_child_order(orig[j], pre[j]),
        pre.to_multiset() == fin.to_multiset(),
    ensures
        forall|k: Seq<char>| #[trigger] key_count(fin, k) == key_count(orig, k),
{
    assert forall|k: Seq<char>| #[trigger] key_count(fin, k) == key_count(orig, k) by {
        lemma_key_weight_pointwise(orig, pre, k);
        lemma_sum_perm(pre, fin, |n: DirectoryNode| key_weight(n, k));
        lemma_key_count_sum(fin, k);
        lemma_key_count_sum(orig, k);
    }
}

proof fn lemma_tree_sorted_multiset(a: Seq<DirectoryNode>, b: Seq<DirectoryNode>)
    requires
        a.to_multiset() == b.to_multiset(),
        forall|i: int| 0 <= i < a.len() ==> (#[trigger] tree_sorted(a[i].children@) && sorted_by_size(a[i].children@)),
    ensures
        tree_sorted(b),
{
    a.to_multiset_ensures();
    b.to_multiset_ensures();
    assert forall|i: int| 0 <= i < b.len() implies (#[trigger] tree_sorted(b[i].children@)
        && sorted_by_size(b[i].children@)) by {
        assert(b.to_multiset().count(b[i]) > 0);
        assert(a.to_multiset().count(b[i]) > 0);
        let k = choose|k: int| 0 <= k < a.len() && a[k] == b[i];
        assert(tree_sorted(a[k].children@));
    }
    lemma_tree_sorted_intro(b);
}

/// Sorts the children of one node (recursively) by size, largest first,
/// and refreshes its `has_children` flag.
#[verifier::spinoff_prover]
fn sort_node(node: &mut DirectoryNode)
    ensures
        same_but_child_order(*old(node), *final(node)),
        final(node).has_children == (final(node).children.len() > 0),
        tree_sorted(final(node).children@),
        sorted_by_size(final(node).children@),
        forall|ov: Map<Seq<char>, (u64, usize)>, cached: Map<Seq<char>, (u64, usize)>|
            tree_ok(old(node).children@, ov, cached) ==> #[trigger] tree_ok(
                final(node).children@,
                ov,
                cached,
            ),
    decreases *old(node),
{
    let ghost orig = node.children@;
    let mut i: usize = 0;
    while i < node.children.len()
        invariant
            i <= node.children.len(),
            node.children.len() == orig.len(),
            orig == old(node).children@,
            forall|j: int| i <= j < orig.len() ==> node.children@[j] == orig[j],
            forall|j: int| 0 <= j < i ==> #[trigger] same_but_child_order(orig[j], node.children@[j]),
            forall|j: int| 0 <= j < i ==> (#[trigger] tree_sorted(node.children@[j].children@) && sorted_by_size(node.children@[j].children@)),
            forall|j: int| 0 <= j < i ==> #[trigger] node.children@[j].has_children == (node.children@[j].children.len() > 0),
            forall|j: int, ov: Map<Seq<char>, (u64, usize)>, cached: Map<Seq<char>, (u64, usize)>|
                0 <= j < i && #[trigger] tree_ok(orig[j].children@, ov, cached) ==> #[trigger] tree_ok(
                    node.children@[j].children@,
                    ov,
                    cached,
                ),
            sum_size(node.children@) == sum_size(orig),
            sum_files(node.children@) == sum_files(orig),
            sum_dirs(node.children@) == sum_dirs(orig),
            node.path == old(node).path,
            node.name == old(node).name,
            node.size == old(node).size,
            node.file_count == old(node).file_count,
            node.dir_count == old(node).dir_count,
            node.is_symlink == old(node).is_symlink,
            node.link_target == old(node).link_target,
            node.safety == old(node).safety,
            node.modified_time == old(node).modified_time,
            node.file_id == old(node).file_id,
        decreases node.children.len() - i,
    {
        assert(decreases_to!(*old(node) => orig[i as int]));
        let ghost before = node.children@;
        sort_node(&mut node.children[i]);
        proof {
            let after = node.children@;
            assert(after =~= before.update(i as int, after[i as int]));
            lemma_sum_update(before, i as int, after[i as int], |n: DirectoryNode| size_of(n));
            lemma_sum_update(before, i as int, after[i as int], |n: DirectoryNode| files_of(n));
            lemma_sum_update(before, i as int, after[i as int], |n: DirectoryNode| dirs_of(n));
        }
        i = i + 1;
    }
    let ghost pre_sort = node.children@;
    assert forall|j: int| 0 <= j < pre_sort.len() implies (#[trigger] tree_sorted(pre_sort[j].children@) && sorted_by_size(pre_sort[j].children@)) by {
        assert(pre_sort[j] == node.children@[j]);
    }
    sort_level_by_size(&mut node.children);
    node.has_children = node.children.len() > 0;
    proof {
        lemma_weight_pointwise(orig, pre_sort);
        lemma_sum_perm(pre_sort, node.children@, |n: DirectoryNode| weight_of(n));
        lemma_key_count_sorted(orig, pre_sort, node.children@);
        assert((forall|k: Seq<char>| #[trigger] top_count(node.children@, k) == top_count(orig, k)) && (forall|
            pk: Seq<char>,
            ck: Seq<char>,
        | #[trigger] link_count(node.children@, pk, ck) == link_count(orig, pk, ck))) by {
            assert forall|j: int| 0 <= j < orig.len() implies #[trigger] same_links(orig[j], pre_sort[j]) by {
                assert(same_but_child_order(orig[j], pre_sort[j]));
            }
            lemma_links_reordered(orig, pre_sort, node.children@);
        }
        lemma_forest_count_sum(node.children@);
        lemma_forest_count_sum(orig);
        lemma_tree_sorted_multiset(pre_sort, node.children@);
        assert forall|ov: Map<Seq<char>, (u64, usize)>, cached: Map<Seq<char>, (u64, usize)>|
            tree_ok(orig, ov, cached) implies #[trigger] tree_ok(node.children@, ov, cached) by {
            lemma_tree_ok_forall(orig, ov, cached);
            lemma_tree_ok_forall(pre_sort, ov, cached);
            assert forall|j: int| 0 <= j < pre_sort.len() implies (#[trigger] tree_ok(pre_sort[j].children@, ov, cached)
                && totals_ok(pre_sort[j], ov, cached)) by {
                assert(same_but_child_order(orig[j], pre_sort[j]));
                assert(tree_ok(orig[j].children@, ov, cached));
                assert(totals_ok(orig[j], ov, cached));
            }
            lemma_tree_ok_multiset(pre_sort, node.children@, ov, cached);
        }
    }
}

/// Sorts a forest by size, largest first, at every level, and refreshes
/// every `has_children` flag below the top level.
#[verifier::spinoff_prover]
#[verifier::rlimit(100)]
pub fn sort_directory_tree(nodes: &mut Vec<DirectoryNode>)
    ensures
        final(nodes)@.len() == old(nodes)@.len(),
        sorted_by_size(final(nodes)@),
        tree_sorted(final(nodes)@),
        sum_size(final(nodes)@) == sum_size(old(nodes)@),
        sum_files(final(nodes)@) == sum_files(old(nodes)@),
        sum_dirs(final(nodes)@) == sum_dirs(old(nodes)@),
        forest_count(final(nodes)@) == forest_count(old(nodes)@),
        forall|k: Seq<char>| #[trigger] key_count(final(nodes)@, k) == key_count(old(nodes)@, k),
        forall|k: Seq<char>| #[trigger] top_count(final(nodes)@, k) == top_count(old(nodes)@, k),
        forall|pk: Seq<char>, ck: Seq<char>| #[trigger] link_count(final(nodes)@, pk, ck) == link_count(old(nodes)@, pk, ck),
        forall|i: int| 0 <= i < old(nodes)@.len() ==> exists|j: int|
            0 <= j < final(nodes)@.len() && final(nodes)@[j].path == #[trigger] old(nodes)@[i].path,
        forall|ov: Map<Seq<char>, (u64, usize)>, cached: Map<Seq<char>, (u64, usize)>|
            tree_ok(old(nodes)@, ov, cached) ==> #[trigger] tree_ok(final(nodes)@, ov, cached),
        forall|rk: Seq<char>, ov: Map<Seq<char>, (u64, usize)>, cached: Map<Seq<char>, (u64, usize)>|
            forest_ok_except(old(nodes)@, rk, ov, cached) ==> #[trigger] forest_ok_except(
                final(nodes)@,
                rk,
                ov,
                cached,
            ),
{
    let ghost orig = nodes@;
    let mut i: usize = 0;
    while i < nodes.len()
        invariant
            i <= nodes.len(),
            nodes.len() == orig.len(),
            orig == old(nodes)@,
            forall|j: int| i <= j < orig.len() ==> nodes@[j] == orig[j],
            forall|j: int| 0 <= j < i ==> #[trigger] same_but_child_order(orig[j], nodes@[j]),
            forall|j: int| 0 <= j < i ==> (#[trigger] tree_sorted(nodes@[j].children@) && sorted_by_size(nodes@[j].children@)),
            forall|j: int| 0 <= j < i ==> #[trigger] nodes@[j].has_children == (nodes@[j].children.len() > 0),
            forall|j: int, ov: Map<Seq<char>, (u64, usize)>, cached: Map<Seq<char>, (u64, usize)>|
                0 <= j < i && #[trigger] tree_ok(orig[j].children@, ov, cached) ==> #[trigger] tree_ok(
                    nodes@[j].children@,
                    ov,
                    cached,
                ),
            sum_size(nodes@) == sum_size(orig),
            sum_files(nodes@) == sum_files(orig),
            sum_dirs(nodes@) == sum_dirs(orig),
        decreases nodes.len() - i,
    {
        let ghost before = nodes@;
        sort_node(&mut nodes[i]);
        proof {
            let after = nodes@;
            assert(after =~= before.update(i as int, after[i as int]));
            lemma_sum_update(before, i as int, after[i as int], |n: DirectoryNode| size_of(n));
            lemma_sum_update(before, i as int, after[i as int], |n: DirectoryNode| files_of(n));
            lemma_sum_update(before, i as int, after[i as int], |n: DirectoryNode| dirs_of(n));
        }
        i = i + 1;
    }
    let ghost pre_sort = nodes@;
    assert(i == nodes.len());
    assert forall|j: int| 0 <= j < pre_sort.len() implies (#[trigger] tree_sorted(pre_sort[j].children@) && sorted_by_size(pre_sort[j].children@)) by {
        assert(pre_sort[j] == nodes@[j]);
        assert(tree_sorted(nodes@[j].children@) && sorted_by_size(nodes@[j].children@));
    }
    sort_level_by_size(nodes);
    proof {
        lemma_weight_pointwise(orig, pre_sort);
        lemma_sum_perm(pre_sort, nodes@, |n: DirectoryNode| weight_of(n));
        lemma_key_count_sorted(orig, pre_sort, nodes@);
        assert((forall|k: Seq<char>| #[trigger] top_count(nodes@, k) == top_count(orig, k)) && (forall|
            pk: Seq<char>,
            ck: Seq<char>,
        | #[trigger] link_count(nodes@, pk, ck) == link_count(orig, pk, ck))) by {
            assert forall|j: int| 0 <= j < orig.len() implies #[trigger] same_links(orig[j], pre_sort[j]) by {
                assert(same_but_child_order(orig[j], pre_sort[j]));
            }
            lemma_links_reordered(orig, pre_sort, nodes@);
        }
        pre_sort.to_multiset_ensures();
        nodes@.to_multiset_ensures();
        assert forall|i: int| 0 <= i < orig.len() implies exists|j: int|
            0 <= j < nodes@.len() && nodes@[j].path == #[trigger] orig[i].path by {
            assert(same_but_child_order(orig[i], pre_sort[i]));
            assert(pre_sort.to_multiset().count(pre_sort[i]) > 0);
            assert(nodes@.to_multiset().count(pre_sort[i]) > 0);
            let j = choose|j: int| 0 <= j < nodes@.len() && nodes@[j] == pre_sort[i];
            assert(nodes@[j].path == orig[i].path);
        }
        lemma_forest_count_sum(nodes@);
        lemma_forest_count_sum(orig);
        lemma_tree_sorted_multiset(pre_sort, nodes@);
        assert forall|ov: Map<Seq<char>, (u64, usize)>, cached: Map<Seq<char>, (u64, usize)>|
            tree_ok(orig, ov, cached) implies #[trigger] tree_ok(nodes@, ov, cached) by {
            lemma_tree_ok_forall(orig, ov, cached);
            lemma_tree_ok_forall(pre_sort, ov, cached);
            assert forall|j: int| 0 <= j < pre_sort.len() implies (#[trigger] tree_ok(pre_sort[j].children@, ov, cached)
                && totals_ok(pre_sort[j], ov, cached)) by {
                assert(same_but_child_order(orig[j], pre_sort[j]));
                assert(tree_ok(orig[j].children@, ov, cached));
                assert(totals_ok(orig[j], ov, cached));
            }
            lemma_tree_ok_multiset(pre_sort, nodes@, ov, cached);
        }
        let fin = nodes@;
        pre_sort.to_multiset_ensures();
        fin.to_multiset_ensures();
        assert forall|rk: Seq<char>, ov: Map<Seq<char>, (u64, usize)>, cached: Map<Seq<char>, (u64, usize)>|
            forest_ok_except(orig, rk, ov, cached) implies #[trigger] forest_ok_except(fin, rk, ov, cached) by {
            assert forall|i: int| 0 <= i < fin.len() && path_key(fin[i].path@) != rk implies (#[trigger] tree_ok(
                fin[i].children@,
                ov,
                cached,
            ) && totals_ok(fin[i], ov, cached)) by {
                assert(fin.to_multiset().count(fin[i]) > 0);
                assert(pre_sort.to_multiset().count(fin[i]) > 0);
                let k = choose|k: int| 0 <= k < pre_sort.len() && pre_sort[k] == fin[i];
                assert(same_but_child_order(orig[k], pre_sort[k]));
                assert(tree_ok(orig[k].children@, ov, cached));
                assert(totals_ok(orig[k], ov, cached));
            }
        }
    }
}

} // verus!
