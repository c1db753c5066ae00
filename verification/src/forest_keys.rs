//! The keys a forest holds, copies of rescanned subtrees, and the pruning of
//! deleted directories: what the merge uses to make sure that every
//! rescanned directory found its place and no deleted one stayed.
use vstd::prelude::*;
use vstd::hash_map::StringHashMap;
use crate::file_info::{copy_opt_string, DirectoryNode};
use crate::incremental::{key_below_or_at, key_starts_with, preorder_paths};
use crate::path_utils::{normalized_path_key_str, path_key};
use crate::safety::copy_safety_opt;
use crate::tree::{forest_count, key_count};

verus! {

/// The keys of every node of a forest, at every depth.
pub open spec fn keys_of(s: Seq<DirectoryNode>) -> Set<Seq<char>>
    decreases s,
{
    if s.len() == 0 {
        Set::empty()
    } else {
        proof {
            assert(decreases_to!(s => s.last()));
        }
        keys_of(s.drop_last()).insert(path_key(s.last().path@)).union(keys_of(s.last().children@))
    }
}

/// A key of the forest has a node in it.
pub proof fn lemma_keys_of_count(s: Seq<DirectoryNode>, k: Seq<char>)
    requires
        keys_of(s).contains(k),
    ensures
        key_count(s, k) >= 1,
    decreases s,
{
    assert(decreases_to!(s => s.last()));
    if keys_of(s.drop_last()).contains(k) {
        lemma_keys_of_count(s.drop_last(), k);
    } else if keys_of(s.last().children@).contains(k) {
        lemma_keys_of_count(s.last().children@, k);
    }
}

proof fn lemma_keys_of_take(s: Seq<DirectoryNode>, i: int)
    requires
        0 <= i < s.len(),
    ensures
        keys_of(s.take(i + 1)) == keys_of(s.take(i)).insert(path_key(s[i].path@)).union(keys_of(s[i].children@)),
{
    assert(s.take(i + 1).drop_last() =~= s.take(i));
    assert(s.take(i + 1).last() == s[i]);
}

proof fn lemma_preorder_take(s: Seq<DirectoryNode>, i: int)
    requires
        0 <= i < s.len(),
    ensures
        preorder_paths(s.take(i + 1)) == preorder_paths(s.take(i)) + seq![s[i].path@] + preorder_paths(
            s[i].children@,
        ),
{
    assert(s.take(i + 1).drop_last() =~= s.take(i));
    assert(s.take(i + 1).last() == s[i]);
}

/// Adds the key of every node of the forest to the set.
pub fn collect_keys(s: &Vec<DirectoryNode>, set: &mut StringHashMap<()>)
    ensures
        final(set)@.dom() == old(set)@.dom().union(keys_of(s@)),
    decreases s@,
{
    let mut i: usize = 0;
    while i < s.len()
        invariant
            i <= s.len(),
            set@.dom() == old(set)@.dom().union(keys_of(s@.take(i as int))),
        decreases s.len() - i,
    {
        assert(decreases_to!(s@ => s@[i as int]));
        assert(decreases_to!(s@[i as int] => s@[i as int].children@));
        let ghost before = set@.dom();
        set.insert(normalized_path_key_str(s[i].path.as_str()), ());
        collect_keys(&s[i].children, set);
        proof {
            lemma_keys_of_take(s@, i as int);
            assert(set@.dom() =~= old(set)@.dom().union(keys_of(s@.take(i as int + 1))));
        }
        i = i + 1;
    }
    assert(s@.take(s@.len() as int) =~= s@);
}

/// Whether the set holds the key of every path the forest lists in
/// pre-order.
pub fn all_keys_in(s: &Vec<DirectoryNode>, set: &StringHashMap<()>) -> (r: bool)
    ensures
        r <==> forall|k: int|
            0 <= k < preorder_paths(s@).len() ==> set@.contains_key(path_key(#[trigger] preorder_paths(s@)[k])),
    decreases s@,
{
    let mut i: usize = 0;
    while i < s.len()
        invariant
            i <= s.len(),
            forall|k: int|
                0 <= k < preorder_paths(s@.take(i as int)).len() ==> set@.contains_key(
                    path_key(#[trigger] preorder_paths(s@.take(i as int))[k]),
                ),
        decreases s.len() - i,
    {
        assert(decreases_to!(s@ => s@[i as int]));
        assert(decreases_to!(s@[i as int] => s@[i as int].children@));
        proof {
            lemma_preorder_take(s@, i as int);
        }
        let ghost a = preorder_paths(s@.take(i as int));
        let ghost b = preorder_paths(s@[i as int].children@);
        let key = normalized_path_key_str(s[i].path.as_str());
        if !set.contains_key(key.as_str()) {
            proof {
                let p = preorder_paths(s@.take(i as int + 1));
                let q = preorder_paths(s@);
                let idx = a.len() as int;
                assert(p[idx] == s@[i as int].path@);
                lemma_preorder_prefix(s@, i as int + 1);
                assert(q[idx] == p[idx]);
            }
            return false;
        }
        if !all_keys_in(&s[i].children, set) {
            proof {
                let p = preorder_paths(s@.take(i as int + 1));
                let q = preorder_paths(s@);
                let m = choose|m: int| 0 <= m < b.len() && !set@.contains_key(path_key(#[trigger] b[m]));
                let idx = a.len() + 1 + m;
                assert(p[idx] == b[m]);
                lemma_preorder_prefix(s@, i as int + 1);
                assert(q[idx] == p[idx]);
            }
            return false;
        }
        proof {
            let p = preorder_paths(s@.take(i as int + 1));
            assert forall|k: int| 0 <= k < p.len() implies set@.contains_key(path_key(#[trigger] p[k])) by {
                if k < a.len() {
                    assert(p[k] == a[k]);
                } else if k == a.len() {
                    assert(p[k] == s@[i as int].path@);
                } else {
                    assert(p[k] == b[k - a.len() - 1]);
                }
            }
        }
        i = i + 1;
    }
    assert(s@.take(s@.len() as int) =~= s@);
    true
}

/// The paths of a prefix of a forest lead the forest's.
proof fn lemma_preorder_prefix(s: Seq<DirectoryNode>, n: int)
    requires
        0 <= n <= s.len(),
    ensures
        preorder_paths(s.take(n)).len() <= preorder_paths(s).len(),
        forall|k: int|
            0 <= k < preorder_paths(s.take(n)).len() ==> #[trigger] preorder_paths(s.take(n))[k] == preorder_paths(
                s,
            )[k],
    decreases s.len() - n,
{
    if n < s.len() {
        lemma_preorder_prefix(s, n + 1);
        lemma_preorder_take(s, n);
        let a = preorder_paths(s.take(n));
        let p = preorder_paths(s.take(n + 1));
        assert forall|k: int| 0 <= k < a.len() implies #[trigger] a[k] == preorder_paths(s)[k] by {
            assert(p[k] == a[k]);
        }
    } else {
        assert(s.take(n) =~= s);
    }
}

/// Two forests list the same paths in pre-order.
pub open spec fn same_paths(a: Seq<DirectoryNode>, b: Seq<DirectoryNode>) -> bool {
    preorder_paths(a) == preorder_paths(b)
}

/// A copy of a node with its whole subtree.
pub fn copy_node(n: &DirectoryNode) -> (r: DirectoryNode)
    ensures
        r.path == n.path,
        preorder_paths(r.children@) == preorder_paths(n.children@),
    decreases *n,
{
    assert(decreases_to!(*n => n.children@));
    let children = copy_forest(&n.children);
    DirectoryNode {
        path: n.path.clone(),
        name: n.name.clone(),
        size: n.size,
        file_count: n.file_count,
        dir_count: n.dir_count,
        children,
        has_children: n.has_children,
        is_symlink: n.is_symlink,
        link_target: copy_opt_string(&n.link_target),
        safety: copy_safety_opt(&n.safety),
        modified_time: n.modified_time,
        file_id: n.file_id,
    }
}

/// A copy of a forest with every subtree.
pub fn copy_forest(s: &Vec<DirectoryNode>) -> (r: Vec<DirectoryNode>)
    ensures
        same_paths(r@, s@),
        r@.len() == s@.len(),
        forall|q: int| 0 <= q < s@.len() ==> #[trigger] r@[q].path == s@[q].path,
    decreases s@,
{
    let mut out: Vec<DirectoryNode> = Vec::new();
    let mut i: usize = 0;
    while i < s.len()
        invariant
            i <= s.len(),
            out@.len() == i,
            preorder_paths(out@) == preorder_paths(s@.take(i as int)),
            forall|q: int| 0 <= q < i ==> #[trigger] out@[q].path == s@[q].path,
        decreases s.len() - i,
    {
        assert(decreases_to!(s@ => s@[i as int]));
        let ghost o0 = out@;
        let c = copy_node(&s[i]);
        out.push(c);
        proof {
            lemma_preorder_take(s@, i as int);
            assert(out@.drop_last() =~= o0);
            assert(preorder_paths(out@) == preorder_paths(o0) + seq![c.path@] + preorder_paths(c.children@));
        }
        i = i + 1;
    }
    assert(s@.take(s@.len() as int) =~= s@);
    out
}

/// A node keyed `k` makes the key one of the forest's.
pub proof fn lemma_count_keys_of(s: Seq<DirectoryNode>, k: Seq<char>)
    requires
        key_count(s, k) >= 1,
    ensures
        keys_of(s).contains(k),
    decreases s,
{
    assert(decreases_to!(s => s.last()));
    if key_count(s.drop_last(), k) >= 1 {
        lemma_count_keys_of(s.drop_last(), k);
    } else if key_count(s.last().children@, k) >= 1 {
        lemma_count_keys_of(s.last().children@, k);
    }
}

proof fn lemma_keys_of_push(a: Seq<DirectoryNode>, x: DirectoryNode)
    ensures
        keys_of(a.push(x)) == keys_of(a).insert(path_key(x.path@)).union(keys_of(x.children@)),
{
    assert(a.push(x).drop_last() =~= a);
}

proof fn lemma_keys_of_append(a: Seq<DirectoryNode>, b: Seq<DirectoryNode>)
    ensures
        keys_of(a + b) == keys_of(a).union(keys_of(b)),
    decreases b.len(),
{
    if b.len() == 0 {
        assert(a + b =~= a);
        assert(keys_of(a).union(Set::empty()) =~= keys_of(a));
    } else {
        lemma_keys_of_append(a, b.drop_last());
        assert((a + b).drop_last() =~= a + b.drop_last());
        assert((a + b).last() == b.last());
        assert(keys_of(a + b) =~= keys_of(a).union(keys_of(b)));
    }
}

/// The key lies at or below one of the keys.
pub open spec fn below_some(k: Seq<char>, keys: Seq<String>) -> bool {
    exists|q: int| 0 <= q < keys.len() && key_below_or_at(k, #[trigger] keys[q]@)
}

/// A key the pruning removes: at or below one of `dkeys`, and not kept.
pub open spec fn pruned_key(k: Seq<char>, dkeys: Seq<String>, keep: Set<Seq<char>>) -> bool {
    below_some(k, dkeys) && !keep.contains(k)
}

/// Whether `key` lies at or below one of the keys.
pub fn key_below_some(key: &str, keys: &Vec<String>) -> (r: bool)
    ensures
        r == below_some(key@, keys@),
{
    let mut i: usize = 0;
    while i < keys.len()
        invariant
            i <= keys.len(),
            forall|q: int| 0 <= q < i ==> !key_below_or_at(key@, #[trigger] keys@[q]@),
        decreases keys.len() - i,
    {
        if key_starts_with(key, keys[i].as_str()) {
            return true;
        }
        i = i + 1;
    }
    false
}

/// A node with no content, standing in a slot whose node was taken.
fn empty_node() -> (r: DirectoryNode) {
    DirectoryNode {
        path: String::new(),
        name: String::new(),
        size: 0,
        file_count: 0,
        dir_count: 0,
        children: Vec::new(),
        has_children: false,
        is_symlink: false,
        link_target: None,
        safety: None,
        modified_time: None,
        file_id: None,
    }
}

/// The forest without the nodes whose keys lie at or below one of `dkeys`
/// and are not in `keep`; what lay below such a node takes its place.
pub fn prune_keys(s: Vec<DirectoryNode>, dkeys: &Vec<String>, keep: &StringHashMap<()>) -> (r: Vec<DirectoryNode>)
    ensures
        forall|k: Seq<char>| #[trigger] keys_of(r@).contains(k) <==> keys_of(s@).contains(k) && !pruned_key(
            k,
            dkeys@,
            keep@.dom(),
        ),
    decreases forest_count(s@),
{
    let ghost orig = s@;
    let mut nodes = s;
    let mut out: Vec<DirectoryNode> = Vec::new();
    let mut i: usize = 0;
    while i < nodes.len()
        invariant
            orig == s@,
            i <= nodes.len(),
            nodes.len() == orig.len(),
            forall|j: int| i <= j < orig.len() ==> nodes@[j] == orig[j],
            forall|k: Seq<char>| #[trigger] keys_of(out@).contains(k) <==> keys_of(orig.take(i as int)).contains(k)
                && !pruned_key(k, dkeys@, keep@.dom()),
        decreases nodes.len() - i,
    {
        let mut node = empty_node();
        std::mem::swap(&mut node, &mut nodes[i]);
        let ghost n0 = node;
        assert(n0 == orig[i as int]);
        let mut children: Vec<DirectoryNode> = Vec::new();
        std::mem::swap(&mut children, &mut node.children);
        assert(children@ == orig[i as int].children@);
        proof {
            crate::incremental::lemma_forest_count_child(orig, i as int);
        }
        let pruned = prune_keys(children, dkeys, keep);
        let ghost pk = pruned@;
        let key = normalized_path_key_str(node.path.as_str());
        let ghost o0 = out@;
        let drop_it = key_below_some(key.as_str(), dkeys) && !keep.contains_key(key.as_str());
        if drop_it {
            let mut rest = pruned;
            out.append(&mut rest);
            proof {
                assert(out@ =~= o0 + pk);
                lemma_keys_of_append(o0, pk);
            }
        } else {
            node.children = pruned;
            let ghost nn = node;
            out.push(node);
            proof {
                lemma_keys_of_push(o0, nn);
                assert(nn.children@ == pk);
                assert(path_key(nn.path@) == path_key(orig[i as int].path@));
            }
        }
        proof {
            lemma_keys_of_take(orig, i as int);
            assert(n0.path == orig[i as int].path);
            let ki = path_key(orig[i as int].path@);
            assert(drop_it == pruned_key(ki, dkeys@, keep@.dom()));
            assert forall|k: Seq<char>| #[trigger] keys_of(out@).contains(k) <==> keys_of(
                orig.take(i as int + 1),
            ).contains(k) && !pruned_key(k, dkeys@, keep@.dom()) by {
                if drop_it {
                    assert(keys_of(out@) == keys_of(o0).union(keys_of(pk)));
                } else {
                    assert(keys_of(out@) == keys_of(o0).insert(ki).union(keys_of(pk)));
                }
            }
        }
        i = i + 1;
    }
    assert(orig.take(orig.len() as int) =~= orig);
    out
}

/// The keys of a forest are the keys of the paths it lists in pre-order.
pub proof fn lemma_keys_of_preorder(s: Seq<DirectoryNode>, k: Seq<char>)
    ensures
        keys_of(s).contains(k) <==> exists|m: int|
            0 <= m < preorder_paths(s).len() && path_key(#[trigger] preorder_paths(s)[m]) == k,
    decreases s,
{
    if s.len() > 0 {
        assert(decreases_to!(s => s.last()));
        let d = s.drop_last();
        let c = s.last().children@;
        lemma_keys_of_preorder(d, k);
        lemma_keys_of_preorder(c, k);
        let a = preorder_paths(d);
        let b = preorder_paths(c);
        let p = preorder_paths(s);
        assert(p == a + seq![s.last().path@] + b);
        if keys_of(s).contains(k) {
            if keys_of(d).contains(k) {
                let m = choose|m: int| 0 <= m < a.len() && path_key(#[trigger] a[m]) == k;
                assert(p[m] == a[m]);
            } else if keys_of(c).contains(k) {
                let m = choose|m: int| 0 <= m < b.len() && path_key(#[trigger] b[m]) == k;
                assert(p[a.len() + 1 + m] == b[m]);
            } else {
                assert(p[a.len() as int] == s.last().path@);
            }
        }
        if exists|m: int| 0 <= m < p.len() && path_key(#[trigger] p[m]) == k {
            let m = choose|m: int| 0 <= m < p.len() && path_key(#[trigger] p[m]) == k;
            if m < a.len() {
                assert(p[m] == a[m]);
            } else if m > a.len() {
                assert(p[m] == b[m - a.len() - 1]);
            }
        }
    }
}

} // verus!
