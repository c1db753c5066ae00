//! Where a rescanned directory stands in a merged forest: below the node of
//! its parent's key. Searches for a parent-child pair of keys, and the
//! attaching of a subtree under the first node of a key.
use vstd::prelude::*;
use crate::file_info::DirectoryNode;
use crate::path_utils::{normalized_path_key_str, path_key};
use crate::incremental::{parent_path, parent_path_spec, preorder_paths};
use crate::forest_keys::{copy_node, keys_of};
use crate::text::str_eq;
use crate::tree::{
    key_count, key_is, key_weight, lemma_key_count_sum, lemma_link_count_nonneg, lemma_link_count_sum,
    lemma_sum_take_one, lemma_sum_update, lemma_top_count_nonneg, link_count, link_weight, sum_by, top_count,
};

verus! {

/// A sum of values that are never negative is at least each of them.
pub proof fn lemma_sum_at_least(s: Seq<DirectoryNode>, f: spec_fn(DirectoryNode) -> int, i: int)
    requires
        forall|n: DirectoryNode| #[trigger] f(n) >= 0,
        0 <= i < s.len(),
    ensures
        sum_by(s, f) >= f(s[i]),
    decreases s.len(),
{
    if i < s.len() - 1 {
        lemma_sum_at_least(s.drop_last(), f, i);
        assert(s.drop_last()[i] == s[i]);
    } else {
        crate::tree::lemma_sum_nonneg(s.drop_last(), f);
    }
}

pub proof fn lemma_link_weight_nonneg(n: DirectoryNode, pk: Seq<char>, ck: Seq<char>)
    ensures
        link_weight(n, pk, ck) >= 0,
{
    lemma_top_count_nonneg(n.children@, ck);
    lemma_link_count_nonneg(n.children@, pk, ck);
}

/// Whether a node of the forest's top level is keyed `k`.
pub fn top_present(s: &Vec<DirectoryNode>, k: &str) -> (r: bool)
    ensures
        r == (top_count(s@, k@) >= 1),
{
    let mut i: usize = 0;
    while i < s.len()
        invariant
            i <= s.len(),
            top_count(s@.take(i as int), k@) == 0,
        decreases s.len() - i,
    {
        proof {
            lemma_sum_take_one(s@, i as int, |n: DirectoryNode| key_is(n, k@));
        }
        let key = normalized_path_key_str(s[i].path.as_str());
        if str_eq(key.as_str(), k) {
            proof {
                assert forall|n: DirectoryNode| #[trigger] key_is(n, k@) >= 0 by {}
                lemma_sum_at_least(s@, |n: DirectoryNode| key_is(n, k@), i as int);
            }
            return true;
        }
        i = i + 1;
    }
    assert(s@.take(s.len() as int) =~= s@);
    false
}

/// Whether a node keyed `pk` has, at any depth of the forest, a child keyed
/// `ck`.
pub fn link_present(s: &Vec<DirectoryNode>, pk: &str, ck: &str) -> (r: bool)
    ensures
        r == (link_count(s@, pk@, ck@) >= 1),
    decreases s@,
{
    proof {
        lemma_link_count_sum(s@, pk@, ck@);
        assert forall|n: DirectoryNode| #[trigger] link_weight(n, pk@, ck@) >= 0 by {
            lemma_link_weight_nonneg(n, pk@, ck@);
        }
    }
    let mut i: usize = 0;
    while i < s.len()
        invariant
            i <= s.len(),
            sum_by(s@.take(i as int), |n: DirectoryNode| link_weight(n, pk@, ck@)) == 0,
            link_count(s@, pk@, ck@) == sum_by(s@, |n: DirectoryNode| link_weight(n, pk@, ck@)),
            forall|n: DirectoryNode| #[trigger] link_weight(n, pk@, ck@) >= 0,
        decreases s.len() - i,
    {
        proof {
            lemma_sum_take_one(s@, i as int, |n: DirectoryNode| link_weight(n, pk@, ck@));
            lemma_sum_at_least(s@, |n: DirectoryNode| link_weight(n, pk@, ck@), i as int);
            lemma_top_count_nonneg(s@[i as int].children@, ck@);
            lemma_link_count_nonneg(s@[i as int].children@, pk@, ck@);
        }
        let key = normalized_path_key_str(s[i].path.as_str());
        if str_eq(key.as_str(), pk) && top_present(&s[i].children, ck) {
            return true;
        }
        assert(decreases_to!(s@ => s@[i as int]));
        assert(decreases_to!(s@[i as int] => s@[i as int].children@));
        if link_present(&s[i].children, pk, ck) {
            return true;
        }
        i = i + 1;
    }
    assert(s@.take(s.len() as int) =~= s@);
    false
}



/// Whether a node of the forest, at any depth, is keyed `k`.
pub fn key_present(s: &Vec<DirectoryNode>, k: &str) -> (r: bool)
    ensures
        r == (key_count(s@, k@) >= 1),
    decreases s@,
{
    proof {
        lemma_key_count_sum(s@, k@);
        assert forall|n: DirectoryNode| #[trigger] key_weight(n, k@) >= 0 by {}
    }
    let mut i: usize = 0;
    while i < s.len()
        invariant
            i <= s.len(),
            sum_by(s@.take(i as int), |n: DirectoryNode| key_weight(n, k@)) == 0,
            key_count(s@, k@) == sum_by(s@, |n: DirectoryNode| key_weight(n, k@)),
            forall|n: DirectoryNode| #[trigger] key_weight(n, k@) >= 0,
        decreases s.len() - i,
    {
        proof {
            lemma_sum_take_one(s@, i as int, |n: DirectoryNode| key_weight(n, k@));
            lemma_sum_at_least(s@, |n: DirectoryNode| key_weight(n, k@), i as int);
        }
        let key = normalized_path_key_str(s[i].path.as_str());
        if str_eq(key.as_str(), k) {
            return true;
        }
        assert(decreases_to!(s@ => s@[i as int]));
        assert(decreases_to!(s@[i as int] => s@[i as int].children@));
        if key_present(&s[i].children, k) {
            return true;
        }
        i = i + 1;
    }
    assert(s@.take(s.len() as int) =~= s@);
    false
}

/// The pairs and keys of a node's children after one more child: the new
/// child's own weight is added.
proof fn lemma_push_child(c: Seq<DirectoryNode>, nd: DirectoryNode)
    ensures
        forall|k: Seq<char>| #[trigger] key_count(c.push(nd), k) == key_count(c, k) + key_weight(nd, k),
        forall|k: Seq<char>| #[trigger] top_count(c.push(nd), k) == top_count(c, k) + key_is(nd, k),
        forall|pk: Seq<char>, ck: Seq<char>| #[trigger] link_count(c.push(nd), pk, ck) == link_count(c, pk, ck)
            + link_weight(nd, pk, ck),
{
    assert(c.push(nd).drop_last() =~= c);
    assert(c.push(nd).last() == nd);
}

/// Attaches the subtree held in `node` as the last child of the first node
/// keyed `pk` at or below `n` (itself first, then its children in order),
/// taking it out of `node`; reports whether such a node was found. Keys
/// gain the subtree's, and no pair of a node and a child is lost.
pub fn attach_in_node(n: &mut DirectoryNode, pk: &str, node: &mut Option<DirectoryNode>) -> (r: bool)
    requires
        *old(node) is Some,
    ensures
        r == (key_weight(*old(n), pk@) >= 1),
        r ==> *final(node) is None,
        !r ==> *final(node) == *old(node) && *final(n) == *old(n),
        final(n).path == old(n).path,
        forall|k: Seq<char>| #[trigger] key_weight(*final(n), k) == key_weight(*old(n), k) + (if r {
            key_weight((*old(node))->0, k)
        } else {
            0
        }),
        forall|p: Seq<char>, c: Seq<char>| #[trigger] link_weight(*final(n), p, c) >= link_weight(*old(n), p, c),
        r ==> link_weight(*final(n), pk@, path_key((*old(node))->0.path@)) >= 1,
    decreases *old(n),
{
    let key = normalized_path_key_str(n.path.as_str());
    if str_eq(key.as_str(), pk) {
        let nd = node.take().unwrap();
        let ghost c = n.children@;
        let ghost ndv = nd;
        n.children.push(nd);
        proof {
            lemma_push_child(c, ndv);
            assert(n.children@ == c.push(ndv));
            assert forall|p: Seq<char>, cc: Seq<char>| #[trigger] link_weight(*n, p, cc) >= link_weight(*old(n), p, cc) by {
                lemma_link_weight_nonneg(ndv, p, cc);
            }
            lemma_top_count_nonneg(c, path_key(ndv.path@));
            lemma_link_count_nonneg(n.children@, pk@, path_key(ndv.path@));
            assert(key_is(ndv, path_key(ndv.path@)) == 1);
        }
        return true;
    }
    let ghost orig = n.children@;
    proof {
        lemma_key_count_sum(orig, pk@);
    }
    let mut i: usize = 0;
    while i < n.children.len()
        invariant
            i <= n.children.len(),
            n.children@ == orig,
            orig == old(n).children@,
            *n == *old(n),
            *node == *old(node),
            *node is Some,
            key@ == path_key(n.path@),
            key@ != pk@,
            forall|j: int| 0 <= j < i ==> key_weight(#[trigger] orig[j], pk@) == 0,
            key_count(orig, pk@) == sum_by(orig, |x: DirectoryNode| key_weight(x, pk@)),
        decreases n.children.len() - i,
    {
        assert(decreases_to!(*old(n) => orig[i as int]));
        assert(decreases_to!(orig[i as int] => orig[i as int].children@));
        let ghost nd = (*node)->0;
        let ghost ci = orig[i as int];
        let ck = normalized_path_key_str(n.children[i].path.as_str());
        let below = str_eq(ck.as_str(), pk) || key_present(&n.children[i].children, pk);
        if below {
            let found = attach_in_node(&mut n.children[i], pk, node);
            assert(found);
            proof {
                let after = n.children@;
                let ci2 = after[i as int];
                assert(after =~= orig.update(i as int, ci2));
                assert forall|k: Seq<char>| #[trigger] key_count(after, k) == key_count(orig, k) + key_weight(nd, k) by {
                    lemma_key_count_sum(orig, k);
                    lemma_key_count_sum(after, k);
                    lemma_sum_update(orig, i as int, ci2, |x: DirectoryNode| key_weight(x, k));
                }
                assert forall|p: Seq<char>, cc: Seq<char>| #[trigger] link_count(after, p, cc) >= link_count(orig, p, cc) by {
                    lemma_link_count_sum(orig, p, cc);
                    lemma_link_count_sum(after, p, cc);
                    lemma_sum_update(orig, i as int, ci2, |x: DirectoryNode| link_weight(x, p, cc));
                }
                let ck = path_key(nd.path@);
                lemma_link_count_sum(after, pk@, ck);
                assert forall|x: DirectoryNode| #[trigger] link_weight(x, pk@, ck) >= 0 by {
                    lemma_link_weight_nonneg(x, pk@, ck);
                }
                lemma_sum_at_least(after, |x: DirectoryNode| link_weight(x, pk@, ck), i as int);
                lemma_top_count_nonneg(after, ck);
                assert forall|x: DirectoryNode| #[trigger] key_weight(x, pk@) >= 0 by {}
                lemma_sum_at_least(orig, |x: DirectoryNode| key_weight(x, pk@), i as int);
                assert forall|p: Seq<char>, cc: Seq<char>| #[trigger] link_weight(*n, p, cc) >= link_weight(*old(n), p, cc) by {
                    assert(link_count(after, p, cc) >= link_count(orig, p, cc));
                    lemma_sum_update(orig, i as int, ci2, |x: DirectoryNode| key_is(x, cc));
                    assert(top_count(after, cc) == top_count(orig, cc));
                    assert(n.children@ == after);
                    assert(old(n).children@ == orig);
                }
            }
            return true;
        }
        i = i + 1;
    }
    proof {
        crate::tree::lemma_sum_nonneg(orig, |x: DirectoryNode| key_weight(x, pk@));
        assert(key_count(orig, pk@) == 0) by {
            lemma_sum_zero(orig, |x: DirectoryNode| key_weight(x, pk@));
        }
    }
    false
}

/// A sum of values that are all zero is zero.
proof fn lemma_sum_zero(s: Seq<DirectoryNode>, f: spec_fn(DirectoryNode) -> int)
    requires
        forall|j: int| 0 <= j < s.len() ==> f(#[trigger] s[j]) == 0,
    ensures
        sum_by(s, f) == 0,
    decreases s.len(),
{
    if s.len() > 0 {
        assert forall|j: int| 0 <= j < s.drop_last().len() implies f(#[trigger] s.drop_last()[j]) == 0 by {
            assert(s.drop_last()[j] == s[j]);
        }
        lemma_sum_zero(s.drop_last(), f);
        assert(f(s[s.len() - 1]) == 0);
    }
}


/// Attaches `node` as the last child of the first node of the forest keyed
/// `pk` (in preorder); reports whether there is one. Keys gain the
/// subtree's, no pair of a node and a child is lost, and the top level
/// keeps its keys.
pub fn attach_in_forest(s: &mut Vec<DirectoryNode>, pk: &str, slot: &mut Option<DirectoryNode>) -> (r: bool)
    requires
        *old(slot) is Some,
    ensures
        r == (key_count(old(s)@, pk@) >= 1),
        r ==> *final(slot) is None,
        !r ==> *final(slot) == *old(slot),
        final(s)@.len() == old(s)@.len(),
        forall|k: Seq<char>| #[trigger] key_count(final(s)@, k) == key_count(old(s)@, k) + (if r {
            key_weight((*old(slot))->0, k)
        } else {
            0
        }),
        forall|p: Seq<char>, c: Seq<char>| #[trigger] link_count(final(s)@, p, c) >= link_count(old(s)@, p, c),
        forall|k: Seq<char>| #[trigger] top_count(final(s)@, k) == top_count(old(s)@, k),
        r ==> link_count(final(s)@, pk@, path_key((*old(slot))->0.path@)) >= 1,
{
    let ghost orig = s@;
    let ghost nd = (*slot)->0;
    proof {
        lemma_key_count_sum(orig, pk@);
    }
    let mut i: usize = 0;
    while i < s.len()
        invariant
            i <= s.len(),
            s@ == orig,
            orig == old(s)@,
            *slot == *old(slot),
            nd == (*old(slot))->0,
            *slot is Some,
            forall|j: int| 0 <= j < i ==> key_weight(#[trigger] orig[j], pk@) == 0,
            key_count(orig, pk@) == sum_by(orig, |x: DirectoryNode| key_weight(x, pk@)),
        decreases s.len() - i,
    {
        let ck = normalized_path_key_str(s[i].path.as_str());
        let below = str_eq(ck.as_str(), pk) || key_present(&s[i].children, pk);
        if below {
            let found = attach_in_node(&mut s[i], pk, slot);
            assert(found);
            proof {
                let after = s@;
                let ci2 = after[i as int];
                assert(after =~= orig.update(i as int, ci2));
                assert forall|k: Seq<char>| #[trigger] key_count(after, k) == key_count(orig, k) + key_weight(nd, k) by {
                    lemma_key_count_sum(orig, k);
                    lemma_key_count_sum(after, k);
                    lemma_sum_update(orig, i as int, ci2, |x: DirectoryNode| key_weight(x, k));
                }
                assert forall|p: Seq<char>, cc: Seq<char>| #[trigger] link_count(after, p, cc) >= link_count(orig, p, cc) by {
                    lemma_link_count_sum(orig, p, cc);
                    lemma_link_count_sum(after, p, cc);
                    lemma_sum_update(orig, i as int, ci2, |x: DirectoryNode| link_weight(x, p, cc));
                }
                assert forall|k: Seq<char>| #[trigger] top_count(after, k) == top_count(orig, k) by {
                    lemma_sum_update(orig, i as int, ci2, |x: DirectoryNode| key_is(x, k));
                }
                let ck = path_key(nd.path@);
                lemma_link_count_sum(after, pk@, ck);
                assert forall|x: DirectoryNode| #[trigger] link_weight(x, pk@, ck) >= 0 by {
                    lemma_link_weight_nonneg(x, pk@, ck);
                }
                lemma_sum_at_least(after, |x: DirectoryNode| link_weight(x, pk@, ck), i as int);
                assert forall|x: DirectoryNode| #[trigger] key_weight(x, pk@) >= 0 by {}
                lemma_sum_at_least(orig, |x: DirectoryNode| key_weight(x, pk@), i as int);
            }
            return true;
        }
        i = i + 1;
    }
    proof {
        lemma_sum_zero(orig, |x: DirectoryNode| key_weight(x, pk@));
    }
    false
}


/// Where a rescanned directory `c` belongs in the forest `t`: at the top
/// level when its parent is the scan root, else as a direct child of a
/// node of its parent's key whenever the forest holds that key.
pub open spec fn rescan_placed(t: Seq<DirectoryNode>, root_key: Seq<char>, c: DirectoryNode) -> bool {
    match parent_path_spec(c.path@) {
        None => true,
        Some(p) => if path_key(p) == root_key {
            top_count(t, path_key(c.path@)) >= 1
        } else {
            key_count(t, path_key(p)) >= 1 ==> link_count(t, path_key(p), path_key(c.path@)) >= 1
        },
    }
}

/// Every rescanned directory stands where it belongs (see [`rescan_placed`]).
pub open spec fn rescans_placed(t: Seq<DirectoryNode>, root_key: Seq<char>, changed: Seq<DirectoryNode>) -> bool {
    forall|q: int| 0 <= q < changed.len() ==> #[trigger] rescan_placed(t, root_key, changed[q])
}

/// The pair [`rescan_placed`] asks for is there (whether or not the parent's
/// key is).
pub open spec fn linked(t: Seq<DirectoryNode>, root_key: Seq<char>, c: DirectoryNode) -> bool {
    match parent_path_spec(c.path@) {
        None => true,
        Some(p) => if path_key(p) == root_key {
            top_count(t, path_key(c.path@)) >= 1
        } else {
            link_count(t, path_key(p), path_key(c.path@)) >= 1
        },
    }
}

/// Number of the first `n` rescanned directories not [`linked`] in `t`.
pub open spec fn unlinked_count(t: Seq<DirectoryNode>, root_key: Seq<char>, changed: Seq<DirectoryNode>, n: int) -> nat
    decreases n,
{
    if n <= 0 || n > changed.len() {
        0
    } else {
        unlinked_count(t, root_key, changed, n - 1) + (if linked(t, root_key, changed[n - 1]) { 0nat } else { 1nat })
    }
}

/// A forest that keeps every top-level and link count of another (or
/// raises it) keeps every [`linked`] directory linked.
pub open spec fn grows_links(a: Seq<DirectoryNode>, b: Seq<DirectoryNode>) -> bool {
    &&& forall|k: Seq<char>| #[trigger] top_count(b, k) >= top_count(a, k)
    &&& forall|p: Seq<char>, c: Seq<char>| #[trigger] link_count(b, p, c) >= link_count(a, p, c)
}

proof fn lemma_unlinked_shrinks(
    a: Seq<DirectoryNode>,
    b: Seq<DirectoryNode>,
    rk: Seq<char>,
    changed: Seq<DirectoryNode>,
    n: int,
    q0: int,
)
    requires
        grows_links(a, b),
        0 <= n <= changed.len(),
    ensures
        unlinked_count(b, rk, changed, n) <= unlinked_count(a, rk, changed, n),
        0 <= q0 < n && !linked(a, rk, changed[q0]) && linked(b, rk, changed[q0]) ==> unlinked_count(b, rk, changed, n)
            < unlinked_count(a, rk, changed, n),
    decreases n,
{
    if n > 0 {
        lemma_unlinked_shrinks(a, b, rk, changed, n - 1, q0);
        let c = changed[n - 1];
        match parent_path_spec(c.path@) {
            None => {},
            Some(p) => {
                assert(top_count(b, path_key(c.path@)) >= top_count(a, path_key(c.path@)));
                assert(link_count(b, path_key(p), path_key(c.path@)) >= link_count(a, path_key(p), path_key(c.path@)));
            },
        }
    }
}

/// A node of the forest keyed `k`, or one below it, gives the forest the key.
proof fn lemma_keys_of_member(s: Seq<DirectoryNode>, q: int, k: Seq<char>)
    requires
        0 <= q < s.len(),
        key_weight(s[q], k) >= 1,
    ensures
        keys_of(s).contains(k),
    decreases s.len(),
{
    if q < s.len() - 1 {
        lemma_keys_of_member(s.drop_last(), q, k);
        assert(s.drop_last()[q] == s[q]);
    } else {
        if path_key(s[q].path@) != k {
            crate::forest_keys::lemma_count_keys_of(s[q].children@, k);
        }
    }
}

/// A copy keeps the keys of what it copies.
proof fn lemma_copy_keys(c: DirectoryNode, d: DirectoryNode, k: Seq<char>)
    requires
        d.path == c.path,
        preorder_paths(d.children@) == preorder_paths(c.children@),
        key_weight(d, k) >= 1,
    ensures
        key_weight(c, k) >= 1,
{
    if path_key(d.path@) != k {
        crate::forest_keys::lemma_count_keys_of(d.children@, k);
        crate::forest_keys::lemma_keys_of_preorder(d.children@, k);
        crate::forest_keys::lemma_keys_of_preorder(c.children@, k);
        crate::forest_keys::lemma_keys_of_count(c.children@, k);
    }
}

/// Adds, for every rescanned directory that does not yet stand where it
/// belongs (see [`rescan_placed`]), a copy of it at the top level (its
/// parent being the scan root) or under the first node of its parent's key,
/// round after round until a round adds nothing. Nothing is taken away: key
/// counts only grow, and only by keys of the rescanned subtrees.
pub fn place_rescans(tree: &mut Vec<DirectoryNode>, changed: &Vec<DirectoryNode>, root_key: &str)
    ensures
        rescans_placed(final(tree)@, root_key@, changed@),
        final(tree)@.len() >= old(tree)@.len(),
        changed@.len() == 0 ==> final(tree)@ == old(tree)@,
        forall|k: Seq<char>| #[trigger] key_count(final(tree)@, k) >= key_count(old(tree)@, k),
        forall|k: Seq<char>|
            #[trigger] key_count(final(tree)@, k) > key_count(old(tree)@, k) ==> keys_of(changed@).contains(k),
{
    if changed.len() == 0 {
        return;
    }
    let ghost t0 = tree@;
    loop
        invariant
            changed@.len() > 0,
            t0 == old(tree)@,
            tree@.len() >= t0.len(),
            forall|k: Seq<char>| #[trigger] key_count(tree@, k) >= key_count(t0, k),
            forall|k: Seq<char>| #[trigger] key_count(tree@, k) > key_count(t0, k) ==> keys_of(changed@).contains(k),
        decreases unlinked_count(tree@, root_key@, changed@, changed@.len() as int),
    {
        let ghost start = tree@;
        let ghost u0 = unlinked_count(start, root_key@, changed@, changed@.len() as int);
        let mut added = false;
        let mut q: usize = 0;
        while q < changed.len()
            invariant
                q <= changed.len(),
                tree@.len() >= t0.len(),
                forall|k: Seq<char>| #[trigger] key_count(tree@, k) >= key_count(t0, k),
                forall|k: Seq<char>| #[trigger] key_count(tree@, k) > key_count(t0, k) ==> keys_of(changed@).contains(k),
                grows_links(start, tree@),
                !added ==> tree@ == start,
                !added ==> forall|j: int| 0 <= j < q ==> #[trigger] rescan_placed(tree@, root_key@, changed@[j]),
                added ==> unlinked_count(tree@, root_key@, changed@, changed@.len() as int) < u0,
                u0 == unlinked_count(start, root_key@, changed@, changed@.len() as int),
            decreases changed.len() - q,
        {
            let c = &changed[q];
            let ghost before = tree@;
            match parent_path(c.path.as_str()) {
                None => {},
                Some(p) => {
                    let pk = normalized_path_key_str(p.as_str());
                    let ck = normalized_path_key_str(c.path.as_str());
                    if str_eq(pk.as_str(), root_key) {
                        if !top_present(tree, ck.as_str()) {
                            let d = copy_node(c);
                            let ghost dv = d;
                            tree.push(d);
                            proof {
                                assert(tree@.drop_last() =~= before);
                                assert forall|k: Seq<char>| #[trigger] key_count(tree@, k) == key_count(before, k) + key_weight(dv, k) by {}
                                assert forall|k: Seq<char>| #[trigger] top_count(tree@, k) == top_count(before, k) + key_is(dv, k) by {}
                                assert forall|pp: Seq<char>, cc: Seq<char>| #[trigger] link_count(tree@, pp, cc) >= link_count(before, pp, cc) by {
                                    lemma_link_weight_nonneg(dv, pp, cc);
                                }
                                assert forall|k: Seq<char>| #[trigger] key_count(tree@, k) > key_count(t0, k) implies keys_of(changed@).contains(k) by {
                                    if key_count(before, k) <= key_count(t0, k) {
                                        lemma_copy_keys(changed@[q as int], dv, k);
                                        lemma_keys_of_member(changed@, q as int, k);
                                    }
                                }
                                lemma_top_count_nonneg(before, ck@);
                                assert(linked(tree@, root_key@, changed@[q as int]));
                                lemma_unlinked_shrinks(start, tree@, root_key@, changed@, changed@.len() as int, q as int);
                                if added {
                                    lemma_unlinked_shrinks(before, tree@, root_key@, changed@, changed@.len() as int, q as int);
                                }
                            }
                            added = true;
                        }
                    } else if key_present(tree, pk.as_str()) && !link_present(tree, pk.as_str(), ck.as_str()) {
                        let mut slot = Some(copy_node(c));
                        let ghost dv = slot->0;
                        let placed = attach_in_forest(tree, pk.as_str(), &mut slot);
                        assert(placed);
                        proof {
                            assert forall|k: Seq<char>| #[trigger] key_count(tree@, k) > key_count(t0, k) implies keys_of(changed@).contains(k) by {
                                if key_count(before, k) <= key_count(t0, k) {
                                    lemma_copy_keys(changed@[q as int], dv, k);
                                    lemma_keys_of_member(changed@, q as int, k);
                                }
                            }
                            assert(linked(tree@, root_key@, changed@[q as int]));
                            lemma_unlinked_shrinks(start, tree@, root_key@, changed@, changed@.len() as int, q as int);
                            if added {
                                lemma_unlinked_shrinks(before, tree@, root_key@, changed@, changed@.len() as int, q as int);
                            }
                        }
                        added = true;
                    }
                },
            }
            q = q + 1;
        }
        if !added {
            return;
        }
    }
}


/// Placement depends on the forest only through its key, top-level and
/// link counts.
pub proof fn lemma_placed_transfer(a: Seq<DirectoryNode>, b: Seq<DirectoryNode>, rk: Seq<char>, changed: Seq<DirectoryNode>)
    requires
        rescans_placed(a, rk, changed),
        forall|k: Seq<char>| #[trigger] key_count(b, k) == key_count(a, k),
        forall|k: Seq<char>| #[trigger] top_count(b, k) == top_count(a, k),
        forall|p: Seq<char>, c: Seq<char>| #[trigger] link_count(b, p, c) == link_count(a, p, c),
    ensures
        rescans_placed(b, rk, changed),
{
    assert forall|q: int| 0 <= q < changed.len() implies #[trigger] rescan_placed(b, rk, changed[q]) by {
        assert(rescan_placed(a, rk, changed[q]));
        let c = changed[q];
        match parent_path_spec(c.path@) {
            None => {},
            Some(p) => {
                assert(key_count(b, path_key(p)) == key_count(a, path_key(p)));
                assert(top_count(b, path_key(c.path@)) == top_count(a, path_key(c.path@)));
                assert(link_count(b, path_key(p), path_key(c.path@)) == link_count(a, path_key(p), path_key(c.path@)));
            },
        }
    }
}

/// Placement depends on the rescanned directories only through their paths.
pub proof fn lemma_placed_same_paths(t: Seq<DirectoryNode>, rk: Seq<char>, a: Seq<DirectoryNode>, b: Seq<DirectoryNode>)
    requires
        rescans_placed(t, rk, a),
        a.len() == b.len(),
        forall|q: int| 0 <= q < a.len() ==> #[trigger] a[q].path == b[q].path,
    ensures
        rescans_placed(t, rk, b),
{
    assert forall|q: int| 0 <= q < b.len() implies #[trigger] rescan_placed(t, rk, b[q]) by {
        assert(rescan_placed(t, rk, a[q]));
        assert(a[q].path == b[q].path);
    }
}

} // verus!
