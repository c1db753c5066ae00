//! Incremental scan merging: folding rescanned subtrees and deletions into a
//! cached directory tree while keeping every directory's totals equal to its
//! own files plus its children.
use vstd::prelude::*;
use vstd::hash_map::StringHashMap;
use crate::file_info::{files_sorted_desc, sort_files_by_size_desc, DirectoryNode, FileInfo};
use vstd::multiset::Multiset;
use crate::path_utils::{normalized_path_key_str, path_key, drive_prefix_len, root_end_of};
use crate::text::{push_char, chars_eq, chars_of, chars_starts_with, is_prefix_of, is_sep, string_from_chars, str_eq, replace_char_str};
use crate::tree::{
    child_totals, lemma_sum_update, lemma_tree_ok_forall, own_entry, sat_u64, sat_usize,
    sort_directory_tree, sorted_by_size, sum_dirs, sum_files, sum_size, totals_ok, tree_ok,
    tree_sorted, size_of, files_of, dirs_of, forest_ok_except,
    forest_count, weight_of, lemma_forest_count_sum, key_count, key_weight, lemma_sum_perm, lemma_sum_push, lemma_sum_remove,
    same_links, top_count, link_count,
};

verus! {

// ---------------------------------------------------------------------------
// Path pieces
// ---------------------------------------------------------------------------

fn is_ascii_letter(c: char) -> (r: bool)
    ensures
        r == (('a' <= c && c <= 'z') || ('A' <= c && c <= 'Z')),
{
    ('a' <= c && c <= 'z') || ('A' <= c && c <= 'Z')
}

/// Where a run of separators ending at `e` (exclusive) starts, not going
/// below `lo`.
pub open spec fn seps_start(v: Seq<char>, lo: int, e: int) -> int
    decreases e - lo,
{
    if e > lo && is_sep(v[e - 1]) {
        seps_start(v, lo, e - 1)
    } else {
        e
    }
}

/// The end of the last separator at or before `j` (exclusive), not going
/// below `lo`; `lo` when there is none.
pub open spec fn after_last_sep(v: Seq<char>, lo: int, j: int) -> int
    decreases j - lo,
{
    if j > lo && !is_sep(v[j - 1]) {
        after_last_sep(v, lo, j - 1)
    } else {
        j
    }
}

/// The parent of a Windows path, as `Path::parent` reads one: none for an
/// empty path, a bare drive or a bare root; trailing separators are
/// ignored, separators between the parent and the last name are dropped and
/// the parent keeps its root.
pub open spec fn parent_path_spec(v: Seq<char>) -> Option<Seq<char>> {
    let n = seps_start(v, 0, v.len() as int);
    let root_end = root_end_of(v);
    if n <= root_end {
        None
    } else {
        let j = after_last_sep(v, root_end, n);
        let end0 = if j > root_end { j - 1 } else { root_end };
        Some(v.take(seps_start(v, root_end, end0)))
    }
}

proof fn lemma_seps_start_bounds(v: Seq<char>, lo: int, e: int)
    requires
        lo <= e,
    ensures
        lo <= seps_start(v, lo, e) <= e,
    decreases e - lo,
{
    if e > lo && is_sep(v[e - 1]) {
        lemma_seps_start_bounds(v, lo, e - 1);
    }
}

proof fn lemma_after_last_sep_bounds(v: Seq<char>, lo: int, j: int)
    requires
        lo <= j,
    ensures
        lo <= after_last_sep(v, lo, j) <= j,
    decreases j - lo,
{
    if j > lo && !is_sep(v[j - 1]) {
        lemma_after_last_sep_bounds(v, lo, j - 1);
    }
}

/// The parent of a Windows path, as `Path::parent` reads one: `None` for an
/// empty path, a bare drive (`C:`) or a bare root (`C:\`, `\`); trailing
/// separators are ignored, and the parent keeps the root separator
/// (`C:\a` has the parent `C:\`, `a` has the parent ``).
pub fn parent_path(path: &str) -> (r: Option<String>)
    ensures
        r is Some == parent_path_spec(path@) is Some,
        r matches Some(q) ==> q@ == parent_path_spec(path@)->0 && q@.len() < path@.len() && is_prefix_of(q@, path@),
{
    let v = chars_of(path);
    let mut n = v.len();
    while n > 0 && (v[n - 1] == '\\' || v[n - 1] == '/')
        invariant
            n <= v.len(),
            v@ == path@,
            seps_start(v@, 0, n as int) == seps_start(v@, 0, v.len() as int),
        decreases n,
    {
        n = n - 1;
    }
    let pre: usize = if v.len() >= 2 && v[1] == ':' && is_ascii_letter(v[0]) {
        2
    } else {
        0
    };
    let root_end: usize = if v.len() > pre && (v[pre] == '\\' || v[pre] == '/') {
        pre + 1
    } else {
        pre
    };
    assert(root_end == root_end_of(v@));
    if n <= root_end {
        return None;
    }
    // the last separator after the root
    let mut j = n;
    while j > root_end && !(v[j - 1] == '\\' || v[j - 1] == '/')
        invariant
            root_end <= j <= n <= v.len(),
            v@ == path@,
            after_last_sep(v@, root_end as int, j as int) == after_last_sep(v@, root_end as int, n as int),
        decreases j,
    {
        j = j - 1;
    }
    let end0 = if j > root_end {
        j - 1
    } else {
        root_end
    };
    let mut end = end0;
    while end > root_end && (v[end - 1] == '\\' || v[end - 1] == '/')
        invariant
            root_end <= end <= end0 < n <= v.len(),
            v@ == path@,
            seps_start(v@, root_end as int, end as int) == seps_start(v@, root_end as int, end0 as int),
        decreases end,
    {
        end = end - 1;
    }
    let mut out: Vec<char> = Vec::new();
    let mut k: usize = 0;
    while k < end
        invariant
            k <= end < n <= v.len(),
            v@ == path@,
            out@ == v@.take(k as int),
        decreases end - k,
    {
        out.push(v[k]);
        k = k + 1;
        assert(out@ =~= v@.take(k as int));
    }
    let q = string_from_chars(out.as_slice());
    assert(path@.subrange(0, end as int) =~= v@.take(end as int));
    Some(q)
}

/// The normalised key of a path's parent.
fn parent_key(path: &str) -> (r: Option<String>)
    ensures
        r is Some == parent_path_spec(path@) is Some,
        r matches Some(k) ==> k@ == path_key(parent_path_spec(path@)->0),
{
    match parent_path(path) {
        Some(p) => Some(normalized_path_key_str(p.as_str())),
        None => None,
    }
}

/// `child_key` is `ancestor_key` or lies below it.
pub open spec fn key_below_or_at(child: Seq<char>, ancestor: Seq<char>) -> bool {
    child == ancestor || (child.len() > ancestor.len() && is_prefix_of(ancestor, child) && is_sep(
        child[ancestor.len() as int],
    ))
}

pub fn key_starts_with(child_key: &str, ancestor_key: &str) -> (r: bool)
    ensures
        r == key_below_or_at(child_key@, ancestor_key@),
{
    let c = chars_of(child_key);
    let a = chars_of(ancestor_key);
    if chars_eq(c.as_slice(), a.as_slice()) {
        return true;
    }
    if c.len() <= a.len() {
        return false;
    }
    if !chars_starts_with(c.as_slice(), a.as_slice()) {
        return false;
    }
    c[a.len()] == '\\' || c[a.len()] == '/'
}

// ---------------------------------------------------------------------------
// Subtotal bookkeeping
// ---------------------------------------------------------------------------

pub open spec fn clamp_u64(x: int) -> int {
    if x < 0 {
        0
    } else if x > u64::MAX as int {
        u64::MAX as int
    } else {
        x
    }
}

pub open spec fn clamp_usize(x: int) -> int {
    if x < 0 {
        0
    } else if x > usize::MAX as int {
        usize::MAX as int
    } else {
        x
    }
}

fn add_clamped_u64(x: u64, d: i128) -> (r: u64)
    ensures
        r == clamp_u64(x + d),
{
    if d >= 0 {
        if d > u64::MAX as i128 {
            u64::MAX
        } else {
            x.saturating_add(d as u64)
        }
    } else if d < 0 - (u64::MAX as i128) {
        0
    } else {
        let m: i128 = 0 - d;
        {
            x.saturating_sub(m as u64)
        }
    }
}

fn add_clamped_usize(x: usize, d: i128) -> (r: usize)
    ensures
        r == clamp_usize(x + d),
{
    if d >= 0 {
        if d > usize::MAX as i128 {
            usize::MAX
        } else {
            x.saturating_add(d as usize)
        }
    } else if d < 0 - (usize::MAX as i128) {
        0
    } else {
        let m: i128 = 0 - d;
        {
            x.saturating_sub(m as usize)
        }
    }
}

/// The node with its totals shifted by the deltas, clamped to the type
/// bounds.
pub open spec fn shifted(n: DirectoryNode, ds: int, df: int, dd: int) -> DirectoryNode {
    DirectoryNode {
        size: clamp_u64(n.size + ds) as u64,
        file_count: clamp_usize(n.file_count + df) as usize,
        dir_count: clamp_usize(n.dir_count + dd) as usize,
        ..n
    }
}

/// Shifts a node's totals by the given deltas, clamped to the type bounds.
fn apply_subtotal_delta(node: &mut DirectoryNode, size_delta: i128, file_delta: i128, dir_delta: i128)
    ensures
        *final(node) == shifted(*old(node), size_delta as int, file_delta as int, dir_delta as int),
        final(node).size == clamp_u64(old(node).size + size_delta),
        final(node).file_count == clamp_usize(old(node).file_count + file_delta),
        final(node).dir_count == clamp_usize(old(node).dir_count + dir_delta),
        final(node).path == old(node).path,
        final(node).children == old(node).children,
{
    node.size = add_clamped_u64(node.size, size_delta);
    node.file_count = add_clamped_usize(node.file_count, file_delta);
    node.dir_count = add_clamped_usize(node.dir_count, dir_delta);
}

/// Makes every node's totals equal its own part plus its children, where
/// the own part is what the node held beyond its children's totals.
#[verifier::spinoff_prover]
fn sanitize_tree_subtotals(nodes: &mut Vec<DirectoryNode>)
    ensures
        final(nodes)@.len() == old(nodes)@.len(),
        tree_ok(final(nodes)@, Map::empty(), Map::empty()),
        settled_forest(old(nodes)@, final(nodes)@),
    decreases old(nodes)@,
{
    let ghost orig = nodes@;
    let mut i: usize = 0;
    while i < nodes.len()
        invariant
            i <= nodes.len(),
            nodes.len() == orig.len(),
            orig == old(nodes)@,
            forall|j: int| i <= j < orig.len() ==> nodes@[j] == orig[j],
            forall|j: int| 0 <= j < i ==> (#[trigger] tree_ok(nodes@[j].children@, Map::empty(), Map::empty())
                && totals_ok(nodes@[j], Map::empty(), Map::empty())),
            forall|j: int| 0 <= j < i ==> #[trigger] settled_node(orig[j], nodes@[j]),
        decreases nodes.len() - i,
    {
        assert(decreases_to!(old(nodes)@ => orig[i as int]));
        assert(decreases_to!(orig[i as int] => orig[i as int].children@));
        let ghost before = nodes@;
        sanitize_node(&mut nodes[i]);
        assert forall|j: int| 0 <= j < orig.len() && j != i implies nodes@[j] == before[j] by {}
        assert(tree_ok(nodes@[i as int].children@, Map::empty(), Map::empty()));
        assert(totals_ok(nodes@[i as int], Map::empty(), Map::empty()));
        assert(settled_node(orig[i as int], nodes@[i as int]));
        assert forall|j: int| 0 <= j < i + 1 implies #[trigger] settled_node(orig[j], nodes@[j]) by {
            if j < i {
                assert(nodes@[j] == before[j]);
            }
        }
        i = i + 1;
    }
    proof {
        lemma_tree_ok_forall(nodes@, Map::empty(), Map::empty());
        lemma_settled_upto_intro(orig, nodes@, orig.len() as int);
    }
}

fn sanitize_node(node: &mut DirectoryNode)
    ensures
        tree_ok(final(node).children@, Map::empty(), Map::empty()),
        totals_ok(*final(node), Map::empty(), Map::empty()),
        settled_node(*old(node), *final(node)),
    decreases *old(node),
{
    assert(decreases_to!(*old(node) => old(node).children@));
    sanitize_tree_subtotals(&mut node.children);
    proof {
        lemma_settled_forest_sums(old(node).children@, node.children@);
    }
    let (cs, cf, cd) = child_totals(&node.children);
    let own_size = node.size.saturating_sub(cs);
    let own_files = node.file_count.saturating_sub(cf);
    node.size = own_size.saturating_add(cs);
    node.file_count = own_files.saturating_add(cf);
    node.dir_count = cd.saturating_add(1);
    node.has_children = node.children.len() > 0;
}

/// What a node holds beyond its children: its size and file count less
/// the (saturated) totals of its children, not below zero.
pub open spec fn own_part(n: DirectoryNode) -> (u64, usize) {
    let cs = sat_u64(sum_size(n.children@));
    let cf = sat_usize(sum_files(n.children@));
    (
        (if n.size >= cs { n.size - cs } else { 0 }) as u64,
        (if n.file_count >= cf { n.file_count - cf } else { 0 }) as usize,
    )
}

/// Whether a node's own part is recorded: always at the top level of a
/// rescanned forest, and below it unless the key is itself a top-level
/// rescanned node.
pub open spec fn records_own(key: Seq<char>, top_keys: Map<Seq<char>, ()>, is_top: bool) -> bool {
    is_top || !top_keys.contains_key(key)
}

/// The table `m` after recording, in preorder, the own part of every node
/// of the forest (see [`records_own`]; a node not recorded is skipped with
/// its subtree); a later node of a key overwrites an earlier one.
pub open spec fn record_forest(
    nodes: Seq<DirectoryNode>,
    m: Map<Seq<char>, (u64, usize)>,
    top_keys: Map<Seq<char>, ()>,
    is_top: bool,
) -> Map<Seq<char>, (u64, usize)>
    decreases nodes, 1int, 0int,
{
    record_upto(nodes, m, top_keys, is_top, nodes.len() as int)
}

/// [`record_forest`] over the first `i` nodes.
pub open spec fn record_upto(
    nodes: Seq<DirectoryNode>,
    m: Map<Seq<char>, (u64, usize)>,
    top_keys: Map<Seq<char>, ()>,
    is_top: bool,
    i: int,
) -> Map<Seq<char>, (u64, usize)>
    decreases nodes, 0int, i,
{
    if i <= 0 || i > nodes.len() {
        m
    } else {
        let m1 = record_upto(nodes, m, top_keys, is_top, i - 1);
        let n = nodes[i - 1];
        let k = path_key(n.path@);
        if records_own(k, top_keys, is_top) {
            proof {
                assert(decreases_to!(nodes => nodes[i - 1]));
                assert(decreases_to!(nodes[i - 1] => nodes[i - 1].children));
                assert(decreases_to!(nodes[i - 1].children => nodes[i - 1].children@));
            }
            record_forest(n.children@, m1.insert(k, own_part(n)), top_keys, false)
        } else {
            m1
        }
    }
}

/// Size and file count of the first `i` nodes of a forest once every
/// directory holds at least its children's totals (see [`settled_totals`]).
pub open spec fn settled_sum(s: Seq<DirectoryNode>, i: int) -> (int, int)
    decreases s, i,
{
    if i <= 0 || i > s.len() {
        (0, 0)
    } else {
        let p = settled_sum(s, i - 1);
        let n = s[i - 1];
        proof {
            assert(decreases_to!(s => s[i - 1]));
            assert(decreases_to!(s[i - 1] => s[i - 1].children));
            assert(decreases_to!(s[i - 1].children => s[i - 1].children@));
        }
        let c = settled_sum(n.children@, n.children@.len() as int);
        (
            p.0 + (if n.size >= sat_u64(c.0) { n.size as int } else { sat_u64(c.0) }),
            p.1 + (if n.file_count >= sat_usize(c.1) { n.file_count as int } else { sat_usize(c.1) }),
        )
    }
}

/// A directory's size and file count once made at least its children's
/// (their totals settled first, saturating at the integer bounds).
pub open spec fn settled_totals(n: DirectoryNode) -> (int, int) {
    let c = settled_sum(n.children@, n.children@.len() as int);
    (
        if n.size >= sat_u64(c.0) { n.size as int } else { sat_u64(c.0) },
        if n.file_count >= sat_usize(c.1) { n.file_count as int } else { sat_usize(c.1) },
    )
}

/// What a directory holds beyond its children's settled totals: its own
/// files' size and count, not below zero.
pub open spec fn settled_own(n: DirectoryNode) -> (u64, usize) {
    let c = settled_sum(n.children@, n.children@.len() as int);
    (
        (if n.size >= sat_u64(c.0) { n.size - sat_u64(c.0) } else { 0 }) as u64,
        (if n.file_count >= sat_usize(c.1) { n.file_count - sat_usize(c.1) } else { 0 }) as usize,
    )
}

/// The table `m` after recording, in preorder, [`settled_own`] of every
/// node of the first `i` nodes of a forest and of all below them; a later
/// node of a key overwrites an earlier one.
pub open spec fn record_settled(nodes: Seq<DirectoryNode>, m: Map<Seq<char>, (u64, usize)>, i: int) -> Map<
    Seq<char>,
    (u64, usize),
>
    decreases nodes, i,
{
    if i <= 0 || i > nodes.len() {
        m
    } else {
        let m1 = record_settled(nodes, m, i - 1);
        let n = nodes[i - 1];
        proof {
            assert(decreases_to!(nodes => nodes[i - 1]));
            assert(decreases_to!(nodes[i - 1] => nodes[i - 1].children));
            assert(decreases_to!(nodes[i - 1].children => nodes[i - 1].children@));
        }
        record_settled(n.children@, m1.insert(path_key(n.path@), settled_own(n)), n.children@.len() as int)
    }
}

/// The own part of every directory of a cached forest, by key: what it
/// holds beyond its children once its totals are settled.
pub open spec fn cached_own_table(old: Seq<DirectoryNode>) -> Map<Seq<char>, (u64, usize)> {
    record_settled(old, Map::empty(), old.len() as int)
}

/// The own parts a merge goes by: those of the cached forest, overlaid by
/// those the rescans report.
pub open spec fn merge_own_table(old: Seq<DirectoryNode>, changed: Seq<DirectoryNode>) -> Map<
    Seq<char>,
    (u64, usize),
> {
    cached_own_table(old).union_prefer_right(rescan_own(changed))
}

/// The first `i` nodes of `new` are those of `old` with settled totals:
/// same paths, same number of children, sizes and file counts of
/// [`settled_totals`], at every depth.
pub open spec fn settled_upto(old: Seq<DirectoryNode>, new: Seq<DirectoryNode>, i: int) -> bool
    decreases old, i,
{
    if i <= 0 || i > old.len() {
        true
    } else {
        let o = old[i - 1];
        let n = new[i - 1];
        proof {
            assert(decreases_to!(old => old[i - 1]));
            assert(decreases_to!(old[i - 1] => old[i - 1].children));
            assert(decreases_to!(old[i - 1].children => old[i - 1].children@));
        }
        &&& settled_upto(old, new, i - 1)
        &&& n.path == o.path
        &&& n.children@.len() == o.children@.len()
        &&& n.size == settled_totals(o).0
        &&& n.file_count == settled_totals(o).1
        &&& settled_upto(o.children@, n.children@, o.children@.len() as int)
    }
}

pub open spec fn settled_forest(old: Seq<DirectoryNode>, new: Seq<DirectoryNode>) -> bool {
    old.len() == new.len() && settled_upto(old, new, old.len() as int)
}

/// One node of `new` stands to its node of `old` as [`settled_upto`] asks.
pub open spec fn settled_node(o: DirectoryNode, n: DirectoryNode) -> bool {
    &&& n.path == o.path
    &&& n.children@.len() == o.children@.len()
    &&& n.size == settled_totals(o).0
    &&& n.file_count == settled_totals(o).1
    &&& settled_forest(o.children@, n.children@)
}

proof fn lemma_settled_upto_intro(old: Seq<DirectoryNode>, new: Seq<DirectoryNode>, i: int)
    requires
        0 <= i <= old.len(),
        old.len() == new.len(),
        forall|j: int| 0 <= j < i ==> #[trigger] settled_node(old[j], new[j]),
    ensures
        settled_upto(old, new, i),
    decreases i,
{
    if i > 0 {
        lemma_settled_upto_intro(old, new, i - 1);
        assert(settled_node(old[i - 1], new[i - 1]));
    }
}

proof fn lemma_settled_sums(old: Seq<DirectoryNode>, new: Seq<DirectoryNode>, i: int)
    requires
        0 <= i <= old.len(),
        old.len() == new.len(),
        settled_upto(old, new, i),
    ensures
        sum_size(new.take(i)) == settled_sum(old, i).0,
        sum_files(new.take(i)) == settled_sum(old, i).1,
    decreases i,
{
    if i == 0 {
        assert(new.take(0) =~= Seq::<DirectoryNode>::empty());
    } else {
        lemma_settled_sums(old, new, i - 1);
        crate::tree::lemma_sum_take_one(new, i - 1, |n: DirectoryNode| size_of(n));
        crate::tree::lemma_sum_take_one(new, i - 1, |n: DirectoryNode| files_of(n));
    }
}

proof fn lemma_settled_forest_sums(old: Seq<DirectoryNode>, new: Seq<DirectoryNode>)
    requires
        settled_forest(old, new),
    ensures
        sum_size(new) == settled_sum(old, old.len() as int).0,
        sum_files(new) == settled_sum(old, old.len() as int).1,
{
    lemma_settled_sums(old, new, old.len() as int);
    assert(new.take(old.len() as int) =~= new);
}

/// Recording the own parts of a settled forest is recording
/// [`settled_own`] over the forest it was settled from.
proof fn lemma_record_settled(old: Seq<DirectoryNode>, new: Seq<DirectoryNode>, m: Map<Seq<char>, (u64, usize)>, i: int)
    requires
        0 <= i <= old.len(),
        old.len() == new.len(),
        settled_upto(old, new, i),
    ensures
        record_upto(new, m, Map::empty(), false, i) == record_settled(old, m, i),
    decreases old, i,
{
    if i > 0 {
        lemma_record_settled(old, new, m, i - 1);
        let o = old[i - 1];
        let n = new[i - 1];
        assert(decreases_to!(old => old[i - 1]));
        assert(decreases_to!(old[i - 1] => old[i - 1].children));
        assert(decreases_to!(old[i - 1].children => old[i - 1].children@));
        lemma_settled_forest_sums(o.children@, n.children@);
        assert(own_part(n) == settled_own(o));
        let m1 = record_settled(old, m, i - 1);
        let e: Map<Seq<char>, ()> = Map::empty();
        let mm = m1.insert(path_key(o.path@), settled_own(o));
        assert(records_own(path_key(n.path@), e, false));
        assert(record_upto(new, m, e, false, i - 1) == m1);
        lemma_record_settled(o.children@, n.children@, mm, o.children@.len() as int);
        assert(record_forest(n.children@, mm, e, false) == record_upto(n.children@, mm, e, false, n.children@.len() as int));
        assert(record_upto(new, m, e, false, i) == record_forest(n.children@, mm, e, false));
        assert(record_settled(old, m, i) == record_settled(o.children@, mm, o.children@.len() as int));
    }
}

/// Records, for every node of a forest, the totals it holds beyond its
/// children (its own files), keyed by normalised path; later nodes of the
/// same key overwrite earlier ones.
fn collect_cached_own(nodes: &Vec<DirectoryNode>, out: &mut StringHashMap<(u64, usize)>)
    ensures
        final(out)@ == record_forest(nodes@, old(out)@, Map::empty(), false),
    decreases nodes@,
{
    let mut i: usize = 0;
    while i < nodes.len()
        invariant
            i <= nodes.len(),
            out@ == record_upto(nodes@, old(out)@, Map::empty(), false, i as int),
        decreases nodes.len() - i,
    {
        let node = &nodes[i];
        assert(decreases_to!(nodes@ => nodes@[i as int]));
        assert(decreases_to!(nodes@[i as int] => nodes@[i as int].children@));
        let (cs, cf, _) = child_totals(&node.children);
        let own_size = node.size.saturating_sub(cs);
        let own_files = node.file_count.saturating_sub(cf);
        out.insert(normalized_path_key_str(node.path.as_str()), (own_size, own_files));
        collect_cached_own(&node.children, out);
        i = i + 1;
    }
}

/// Records the own totals of rescanned nodes and of their descendants; a
/// descendant that is itself a top-level rescanned node is left to its own
/// top-level entry.
fn ingest_changed_own(
    nodes: &Vec<DirectoryNode>,
    cached_own: &mut StringHashMap<(u64, usize)>,
    top_level_keys: &StringHashMap<()>,
    is_top_level: bool,
)
    ensures
        final(cached_own)@ == record_forest(nodes@, old(cached_own)@, top_level_keys@, is_top_level),
    decreases nodes@,
{
    let mut i: usize = 0;
    while i < nodes.len()
        invariant
            i <= nodes.len(),
            cached_own@ == record_upto(nodes@, old(cached_own)@, top_level_keys@, is_top_level, i as int),
        decreases nodes.len() - i,
    {
        let node = &nodes[i];
        assert(decreases_to!(nodes@ => nodes@[i as int]));
        assert(decreases_to!(nodes@[i as int] => nodes@[i as int].children@));
        let key = normalized_path_key_str(node.path.as_str());
        if is_top_level || !top_level_keys.contains_key(key.as_str()) {
            let (cs, cf, _) = child_totals(&node.children);
            let own_size = node.size.saturating_sub(cs);
            let own_files = node.file_count.saturating_sub(cf);
            cached_own.insert(key, (own_size, own_files));
            ingest_changed_own(&node.children, cached_own, top_level_keys, false);
        }
        i = i + 1;
    }
}

/// Two nodes with one path whose subtrees hold the same number of nodes,
/// and of nodes of each key.
pub open spec fn same_shape(a: DirectoryNode, b: DirectoryNode) -> bool {
    &&& a.path == b.path
    &&& forest_count(a.children@) == forest_count(b.children@)
    &&& forall|k: Seq<char>| #[trigger] key_count(a.children@, k) == key_count(b.children@, k)
}

pub proof fn lemma_same_shape_sums(a: Seq<DirectoryNode>, b: Seq<DirectoryNode>)
    requires
        a.len() == b.len(),
        forall|j: int| 0 <= j < a.len() ==> #[trigger] same_shape(a[j], b[j]),
    ensures
        forest_count(a) == forest_count(b),
        forall|k: Seq<char>| #[trigger] key_count(a, k) == key_count(b, k),
    decreases a.len(),
{
    if a.len() > 0 {
        let n = a.len() - 1;
        assert(same_shape(a[n], b[n]));
        assert forall|j: int| 0 <= j < a.drop_last().len() implies #[trigger] same_shape(a.drop_last()[j], b.drop_last()[j]) by {
            assert(same_shape(a[j], b[j]));
        }
        lemma_same_shape_sums(a.drop_last(), b.drop_last());
        assert forall|k: Seq<char>| #[trigger] key_count(a, k) == key_count(b, k) by {
            assert(key_count(a.drop_last(), k) == key_count(b.drop_last(), k));
            assert(key_count(a[n].children@, k) == key_count(b[n].children@, k));
        }
    }
}

/// Recomputes a node's totals bottom-up as own part plus children, the own
/// part taken from the overrides, else from the recorded table, else from
/// what the node held beyond its children.
#[verifier::spinoff_prover]
pub(crate) fn recalc_subtotals_authoritative(
    node: &mut DirectoryNode,
    own_overrides: &StringHashMap<(u64, usize)>,
    cached_own: &StringHashMap<(u64, usize)>,
)
    ensures
        tree_ok(final(node).children@, own_overrides@, cached_own@),
        totals_ok(*final(node), own_overrides@, cached_own@),
        final(node).path == old(node).path,
        final(node).name == old(node).name,
        same_shape(*old(node), *final(node)),
        same_links(*old(node), *final(node)),
    decreases *old(node),
{
    let ghost orig = node.children@;
    let ghost ov = own_overrides@;
    let ghost ca = cached_own@;
    let mut i: usize = 0;
    while i < node.children.len()
        invariant
            i <= node.children.len(),
            node.children.len() == orig.len(),
            orig == old(node).children@,
            ov == own_overrides@,
            ca == cached_own@,
            forall|j: int| i <= j < orig.len() ==> node.children@[j] == orig[j],
            forall|j: int| 0 <= j < i ==> (#[trigger] tree_ok(node.children@[j].children@, ov, ca)
                && totals_ok(node.children@[j], ov, ca)),
            forall|j: int| 0 <= j < i ==> #[trigger] same_shape(orig[j], node.children@[j]),
            forall|j: int| 0 <= j < i ==> #[trigger] same_links(orig[j], node.children@[j]),
            node.path == old(node).path,
            node.name == old(node).name,
        decreases node.children.len() - i,
    {
        assert(decreases_to!(*old(node) => orig[i as int]));
        let ghost before = node.children@;
        recalc_subtotals_authoritative(&mut node.children[i], own_overrides, cached_own);
        assert forall|j: int| 0 <= j < orig.len() && j != i implies node.children@[j] == before[j] by {}
        assert forall|j: int| 0 <= j < i + 1 implies #[trigger] same_links(orig[j], node.children@[j]) by {
            if j < i {
                assert(node.children@[j] == before[j]);
            }
        }
        i = i + 1;
    }
    proof {
        crate::tree::lemma_links_reordered(orig, node.children@, node.children@);
        lemma_tree_ok_forall(node.children@, ov, ca);
        assert forall|j: int| 0 <= j < orig.len() implies #[trigger] same_shape(orig[j], node.children@[j]) by {
            if j >= i {
                assert(node.children@[j] == orig[j]);
            }
        }
        lemma_same_shape_sums(orig, node.children@);
    }
    let key = normalized_path_key_str(node.path.as_str());
    let (cs, cf, cd) = child_totals(&node.children);
    let own: (u64, usize) = match own_overrides.get(key.as_str()) {
        Some(v) => *v,
        None => match cached_own.get(key.as_str()) {
            Some(v) => *v,
            None => (node.size.saturating_sub(cs), node.file_count.saturating_sub(cf)),
        },
    };
    node.size = own.0.saturating_add(cs);
    node.file_count = own.1.saturating_add(cf);
    node.dir_count = cd.saturating_add(1);
    node.has_children = node.children.len() > 0;
}


// ---------------------------------------------------------------------------
// Keyed merge: deletions and upserts located by parent key
// ---------------------------------------------------------------------------

/// The (size, files, dirs) of a node as integers.
pub open spec fn totals_of(n: DirectoryNode) -> (int, int, int) {
    (n.size as int, n.file_count as int, n.dir_count as int)
}

/// Some node of the forest has the key `k`, at the top level.
pub open spec fn key_at_top(s: Seq<DirectoryNode>, k: Seq<char>) -> bool {
    exists|j: int| 0 <= j < s.len() && path_key(#[trigger] s[j].path@) == k
}

/// The first top-level node of the forest whose key is `k`.
pub open spec fn first_at_top(s: Seq<DirectoryNode>, k: Seq<char>, j: int) -> bool {
    &&& 0 <= j < s.len()
    &&& path_key(s[j].path@) == k
    &&& forall|q: int| 0 <= q < j ==> path_key(#[trigger] s[q].path@) != k
}

/// Searching down the key path from `n` reaches the node keyed `pk`, and
/// that node has a child keyed `tk`: the search enters a node only when
/// `pk` lies at or below its key, and stops at the first node keyed `pk`.
pub open spec fn finds_child(n: DirectoryNode, pk: Seq<char>, tk: Seq<char>) -> bool
    decreases n, 0int,
{
    let k = path_key(n.path@);
    if k == pk {
        key_at_top(n.children@, tk)
    } else if key_below_or_at(pk, k) {
        proof {
            assert(decreases_to!(n => n.children));
        }
        finds_child_in(n.children@, pk, tk)
    } else {
        false
    }
}

/// [`finds_child`] holds for some node of the list.
pub open spec fn finds_child_in(s: Seq<DirectoryNode>, pk: Seq<char>, tk: Seq<char>) -> bool
    decreases s, 1int,
{
    if s.len() == 0 {
        false
    } else {
        proof {
            assert(decreases_to!(s => s.last()));
        }
        finds_child_in(s.drop_last(), pk, tk) || finds_child(s.last(), pk, tk)
    }
}

proof fn lemma_finds_child_in(s: Seq<DirectoryNode>, pk: Seq<char>, tk: Seq<char>)
    ensures
        finds_child_in(s, pk, tk) <==> exists|j: int| 0 <= j < s.len() && #[trigger] finds_child(s[j], pk, tk),
    decreases s.len(),
{
    if s.len() > 0 {
        let d = s.drop_last();
        lemma_finds_child_in(d, pk, tk);
        let last = s.len() - 1;
        assert(s.last() == s[last]);
        if finds_child_in(s, pk, tk) {
            if finds_child_in(d, pk, tk) {
                let j = choose|j: int| 0 <= j < d.len() && #[trigger] finds_child(d[j], pk, tk);
                assert(s[j] == d[j]);
                assert(finds_child(s[j], pk, tk));
            } else {
                assert(finds_child(s[last], pk, tk));
            }
        }
        if exists|j: int| 0 <= j < s.len() && #[trigger] finds_child(s[j], pk, tk) {
            let j = choose|j: int| 0 <= j < s.len() && #[trigger] finds_child(s[j], pk, tk);
            if j < last {
                assert(d[j] == s[j]);
                assert(finds_child(d[j], pk, tk));
            } else {
                assert(finds_child(s.last(), pk, tk));
            }
        }
    }
}

/// Searching down the key path from `n` (as in [`finds_child`]) reaches
/// the node keyed `pk`.
pub open spec fn reaches(n: DirectoryNode, pk: Seq<char>) -> bool
    decreases n, 0int,
{
    let k = path_key(n.path@);
    if k == pk {
        true
    } else if key_below_or_at(pk, k) {
        proof {
            assert(decreases_to!(n => n.children));
        }
        reaches_in(n.children@, pk)
    } else {
        false
    }
}

/// [`reaches`] holds for some node of the list.
pub open spec fn reaches_in(s: Seq<DirectoryNode>, pk: Seq<char>) -> bool
    decreases s, 1int,
{
    if s.len() == 0 {
        false
    } else {
        proof {
            assert(decreases_to!(s => s.last()));
        }
        reaches_in(s.drop_last(), pk) || reaches(s.last(), pk)
    }
}

proof fn lemma_reaches_in(s: Seq<DirectoryNode>, pk: Seq<char>)
    ensures
        reaches_in(s, pk) <==> exists|j: int| 0 <= j < s.len() && #[trigger] reaches(s[j], pk),
    decreases s.len(),
{
    if s.len() > 0 {
        let d = s.drop_last();
        lemma_reaches_in(d, pk);
        let last = s.len() - 1;
        assert(s.last() == s[last]);
        if reaches_in(s, pk) {
            if reaches_in(d, pk) {
                let j = choose|j: int| 0 <= j < d.len() && #[trigger] reaches(d[j], pk);
                assert(s[j] == d[j]);
                assert(reaches(s[j], pk));
            } else {
                assert(reaches(s[last], pk));
            }
        }
        if exists|j: int| 0 <= j < s.len() && #[trigger] reaches(s[j], pk) {
            let j = choose|j: int| 0 <= j < s.len() && #[trigger] reaches(s[j], pk);
            if j < last {
                assert(d[j] == s[j]);
                assert(reaches(d[j], pk));
            } else {
                assert(reaches(s.last(), pk));
            }
        }
    }
}

/// Removes the child `target_key` of the node `parent_key` somewhere below
/// `node`, shrinking the totals of every node on the way down but `node`
/// itself; returns the removed node's totals.
fn delete_in_subtree(node: &mut DirectoryNode, parent_key: &str, target_key: &str) -> (r: Option<(u64, usize, usize)>)
    ensures
        r is Some <==> finds_child(*old(node), parent_key@, target_key@),
        final(node).path == old(node).path,
        final(node).size == old(node).size,
        final(node).file_count == old(node).file_count,
        final(node).dir_count == old(node).dir_count,
    decreases *old(node),
{
    let node_key = normalized_path_key_str(node.path.as_str());
    if str_eq(node_key.as_str(), parent_key) {
        let mut pos: usize = 0;
        while pos < node.children.len()
            invariant
                pos <= node.children.len(),
                node.children@ == old(node).children@,
                node_key@ == path_key(old(node).path@),
                node_key@ == parent_key@,
                forall|q: int| 0 <= q < pos ==> path_key(#[trigger] node.children@[q].path@) != target_key@,
                node.path == old(node).path,
                node.size == old(node).size,
                node.file_count == old(node).file_count,
                node.dir_count == old(node).dir_count,
            decreases node.children.len() - pos,
        {
            let ck = normalized_path_key_str(node.children[pos].path.as_str());
            if str_eq(ck.as_str(), target_key) {
                let removed = node.children.remove(pos);
                if node.children.len() == 0 {
                    node.has_children = false;
                }
                return Some((removed.size, removed.file_count, removed.dir_count));
            }
            pos = pos + 1;
        }
        return None;
    }
    if !key_starts_with(parent_key, node_key.as_str()) {
        return None;
    }
    let ghost orig = node.children@;
    let mut i: usize = 0;
    while i < node.children.len()
        invariant
            i <= node.children.len(),
            forall|q: int| 0 <= q < i ==> !#[trigger] finds_child(orig[q], parent_key@, target_key@),
            node_key@ == path_key(old(node).path@),
            node_key@ != parent_key@,
            key_below_or_at(parent_key@, node_key@),
            node.children.len() == orig.len(),
            forall|j: int| i <= j < orig.len() ==> node.children@[j] == orig[j],
            node.path == old(node).path,
            node.size == old(node).size,
            node.file_count == old(node).file_count,
            node.dir_count == old(node).dir_count,
            orig == old(node).children@,
        decreases node.children.len() - i,
    {
        assert(decreases_to!(*old(node) => orig[i as int]));
        let found = delete_in_subtree(&mut node.children[i], parent_key, target_key);
        match found {
            Some(delta) => {
                proof {
                    assert(finds_child(orig[i as int], parent_key@, target_key@));
                    lemma_finds_child_in(orig, parent_key@, target_key@);
                }
                apply_subtotal_delta(
                    &mut node.children[i],
                    0 - (delta.0 as i128),
                    0 - (delta.1 as i128),
                    0 - (delta.2 as i128),
                );
                return Some(delta);
            },
            None => {},
        }
        i = i + 1;
    }
    proof {
        lemma_finds_child_in(orig, parent_key@, target_key@);
    }
    None
}

/// Removes `target_key` from the forest: from the top level when its parent
/// is the scan root, else below the top-level node that holds its parent,
/// whose totals shrink by the removed ones. Returns whether it was found.
fn apply_delete(tree: &mut Vec<DirectoryNode>, parent_key: &str, target_key: &str, root_key: &str) -> (r: bool)
    ensures
        final(tree)@.len() <= old(tree)@.len(),
        parent_key@ == root_key@ ==> (r <==> key_at_top(old(tree)@, target_key@)),
        parent_key@ == root_key@ && r ==> exists|j: int| #[trigger] first_at_top(old(tree)@, target_key@, j) && final(tree)@
            == old(tree)@.remove(j),
        parent_key@ == root_key@ && !r ==> final(tree)@ == old(tree)@,
        parent_key@ != root_key@ ==> (r <==> finds_child_in(old(tree)@, parent_key@, target_key@)),
        parent_key@ != root_key@ ==> final(tree)@.len() == old(tree)@.len(),
{
    if str_eq(parent_key, root_key) {
        let mut pos: usize = 0;
        while pos < tree.len()
            invariant
                pos <= tree.len(),
                tree@ == old(tree)@,
                parent_key@ == root_key@,
                forall|q: int| 0 <= q < pos ==> path_key(#[trigger] tree@[q].path@) != target_key@,
            decreases tree.len() - pos,
        {
            let k = normalized_path_key_str(tree[pos].path.as_str());
            if str_eq(k.as_str(), target_key) {
                let _ = tree.remove(pos);
                assert(first_at_top(old(tree)@, target_key@, pos as int));
                return true;
            }
            pos = pos + 1;
        }
        return false;
    }
    let ghost orig = tree@;
    let mut i: usize = 0;
    while i < tree.len()
        invariant
            i <= tree.len(),
            tree@.len() == old(tree)@.len(),
            orig == old(tree)@,
            parent_key@ != root_key@,
            forall|j: int| i <= j < orig.len() ==> tree@[j] == orig[j],
            forall|q: int| 0 <= q < i ==> !#[trigger] finds_child(orig[q], parent_key@, target_key@),
        decreases tree.len() - i,
    {
        let found = delete_in_subtree(&mut tree[i], parent_key, target_key);
        match found {
            Some(delta) => {
                apply_subtotal_delta(
                    &mut tree[i],
                    0 - (delta.0 as i128),
                    0 - (delta.1 as i128),
                    0 - (delta.2 as i128),
                );
                proof {
                    assert(finds_child(orig[i as int], parent_key@, target_key@));
                    lemma_finds_child_in(orig, parent_key@, target_key@);
                }
                return true;
            },
            None => {},
        }
        i = i + 1;
    }
    proof {
        lemma_finds_child_in(orig, parent_key@, target_key@);
    }
    false
}

/// Places `new_node` as the child `target_key` of the node `parent_key`
/// below `node` (replacing a child of that key, else appended), growing the
/// totals on the way down but `node` itself by the change; returns that
/// change. `new_node` is taken only when it was placed.
fn upsert_in_subtree(
    node: &mut DirectoryNode,
    parent_key: &str,
    target_key: &str,
    new_node: &mut Option<DirectoryNode>,
) -> (r: Option<(i128, i128, i128)>)
    requires
        *old(new_node) is Some,
    ensures
        r is Some <==> reaches(*old(node), parent_key@),
        r is None ==> *final(new_node) == *old(new_node),
        r is Some ==> *final(new_node) is None,
        final(node).path == old(node).path,
        final(node).size == old(node).size,
    decreases *old(node),
{
    let node_key = normalized_path_key_str(node.path.as_str());
    if str_eq(node_key.as_str(), parent_key) {
        let placed = new_node.take().unwrap();
        let ns: i128 = placed.size as i128;
        let nf: i128 = placed.file_count as i128;
        let nd: i128 = placed.dir_count as i128;
        let mut pos: usize = 0;
        while pos < node.children.len()
            invariant
                pos <= node.children.len(),
                node.path == old(node).path,
                node.size == old(node).size,
                node_key@ == path_key(old(node).path@),
                node_key@ == parent_key@,
                0 <= ns <= u64::MAX,
                *new_node is None,
                0 <= nf <= usize::MAX,
                0 <= nd <= usize::MAX,
            decreases node.children.len() - pos,
        {
            let ck = normalized_path_key_str(node.children[pos].path.as_str());
            if str_eq(ck.as_str(), target_key) {
                let prev = node.children.remove(pos);
                node.children.insert(pos, placed);
                let ps: i128 = prev.size as i128;
                let pf: i128 = prev.file_count as i128;
                let pd: i128 = prev.dir_count as i128;
                return Some((ns - ps, nf - pf, nd - pd));
            }
            pos = pos + 1;
        }
        node.children.push(placed);
        node.has_children = true;
        return Some((ns, nf, nd));
    }
    if !key_starts_with(parent_key, node_key.as_str()) {
        return None;
    }
    let ghost orig = node.children@;
    let mut i: usize = 0;
    while i < node.children.len()
        invariant
            i <= node.children.len(),
            node.children.len() == orig.len(),
            forall|j: int| i <= j < orig.len() ==> node.children@[j] == orig[j],
            node.path == old(node).path,
            node.size == old(node).size,
            *new_node == *old(new_node),
            *new_node is Some,
            orig == old(node).children@,
            forall|q: int| 0 <= q < i ==> !#[trigger] reaches(orig[q], parent_key@),
            node_key@ == path_key(old(node).path@),
            node_key@ != parent_key@,
            key_below_or_at(parent_key@, node_key@),
        decreases node.children.len() - i,
    {
        assert(decreases_to!(*old(node) => orig[i as int]));
        let found = upsert_in_subtree(&mut node.children[i], parent_key, target_key, new_node);
        match found {
            Some(delta) => {
                apply_subtotal_delta(&mut node.children[i], delta.0, delta.1, delta.2);
                proof {
                    assert(reaches(orig[i as int], parent_key@));
                    lemma_reaches_in(orig, parent_key@);
                }
                return Some(delta);
            },
            None => {},
        }
        i = i + 1;
    }
    proof {
        lemma_reaches_in(orig, parent_key@);
    }
    None
}

/// Places `new_node` at `target_key`: at the top level when its parent is
/// the scan root (replacing a node of that key), else below the top-level
/// node holding its parent, else appended at the top level.
fn apply_upsert(tree: &mut Vec<DirectoryNode>, parent_key: &str, target_key: &str, root_key: &str, new_node: DirectoryNode)
    requires
        path_key(new_node.path@) == target_key@,
    ensures
        final(tree)@.len() >= old(tree)@.len(),
        final(tree)@.len() > 0,
        forall|k: Seq<char>| key_at_top(old(tree)@, k) ==> #[trigger] key_at_top(final(tree)@, k),
        parent_key@ == root_key@ ==> key_at_top(final(tree)@, target_key@),
        parent_key@ == root_key@ && key_at_top(old(tree)@, target_key@) ==> exists|j: int|
            #[trigger] first_at_top(old(tree)@, target_key@, j) && final(tree)@ == old(tree)@.update(j, new_node),
        parent_key@ == root_key@ && !key_at_top(old(tree)@, target_key@) ==> final(tree)@ == old(tree)@.push(new_node),
        parent_key@ != root_key@ && reaches_in(old(tree)@, parent_key@) ==> final(tree)@.len() == old(tree)@.len(),
        parent_key@ != root_key@ && !reaches_in(old(tree)@, parent_key@) ==> final(tree)@.len() == old(tree)@.len() + 1
            && final(tree)@.last() == new_node,
{
    if str_eq(parent_key, root_key) {
        let mut pos: usize = 0;
        while pos < tree.len()
            invariant
                pos <= tree.len(),
                tree@ == old(tree)@,
                parent_key@ == root_key@,
                forall|q: int| 0 <= q < pos ==> path_key(#[trigger] tree@[q].path@) != target_key@,
                path_key(new_node.path@) == target_key@,
            decreases tree.len() - pos,
        {
            let k = normalized_path_key_str(tree[pos].path.as_str());
            if str_eq(k.as_str(), target_key) {
                let ghost nn = new_node;
                let _ = tree.remove(pos);
                tree.insert(pos, new_node);
                proof {
                    assert(first_at_top(old(tree)@, target_key@, pos as int));
                    assert(tree@ =~= old(tree)@.update(pos as int, nn));
                    assert(tree@[pos as int] == nn);
                    assert(path_key(nn.path@) == target_key@);
                    assert(path_key(tree@[pos as int].path@) == target_key@);
                    assert forall|k: Seq<char>| key_at_top(old(tree)@, k) implies #[trigger] key_at_top(tree@, k) by {
                        let j = choose|j: int| 0 <= j < old(tree)@.len() && path_key(#[trigger] old(tree)@[j].path@) == k;
                        if j != pos {
                            assert(tree@[j] == old(tree)@[j]);
                        }
                    }
                }
                return;
            }
            pos = pos + 1;
        }
        let ghost before = tree@;
        tree.push(new_node);
        proof {
            assert(path_key(tree@[before.len() as int].path@) == target_key@);
            assert forall|k: Seq<char>| key_at_top(old(tree)@, k) implies #[trigger] key_at_top(tree@, k) by {
                let j = choose|j: int| 0 <= j < old(tree)@.len() && path_key(#[trigger] old(tree)@[j].path@) == k;
                assert(tree@[j] == old(tree)@[j]);
            }
        }
        return;
    }
    let ghost orig = tree@;
    let ghost nn = new_node;
    let mut slot = Some(new_node);
    let mut i: usize = 0;
    while i < tree.len()
        invariant
            i <= tree.len(),
            tree@.len() == old(tree)@.len(),
            orig == old(tree)@,
            parent_key@ != root_key@,
            slot == Some(nn),
            path_key(nn.path@) == target_key@,
            forall|j: int| i <= j < orig.len() ==> tree@[j] == orig[j],
            forall|j: int| 0 <= j < i ==> #[trigger] tree@[j].path == orig[j].path,
            forall|q: int| 0 <= q < i ==> !#[trigger] reaches(orig[q], parent_key@),
        decreases tree.len() - i,
    {
        let ghost before = tree@;
        let found = upsert_in_subtree(&mut tree[i], parent_key, target_key, &mut slot);
        match found {
            Some(delta) => {
                apply_subtotal_delta(&mut tree[i], delta.0, delta.1, delta.2);
                proof {
                    assert(reaches(orig[i as int], parent_key@));
                    lemma_reaches_in(orig, parent_key@);
                    assert forall|j: int| 0 <= j < orig.len() implies #[trigger] tree@[j].path == orig[j].path by {
                        if j != i {
                            assert(tree@[j] == before[j]);
                        }
                    }
                    assert forall|k: Seq<char>| key_at_top(old(tree)@, k) implies #[trigger] key_at_top(tree@, k) by {
                        let j = choose|j: int| 0 <= j < old(tree)@.len() && path_key(#[trigger] old(tree)@[j].path@) == k;
                        assert(tree@[j].path == orig[j].path);
                    }
                }
                return;
            },
            None => {},
        }
        proof {
            assert forall|j: int| 0 <= j < i + 1 implies #[trigger] tree@[j].path == orig[j].path by {
                if j != i {
                    assert(tree@[j] == before[j]);
                }
            }
        }
        i = i + 1;
    }
    proof {
        lemma_reaches_in(orig, parent_key@);
    }
    let ghost before = tree@;
    tree.push(slot.unwrap());
    proof {
        assert forall|k: Seq<char>| key_at_top(old(tree)@, k) implies #[trigger] key_at_top(tree@, k) by {
            let j = choose|j: int| 0 <= j < old(tree)@.len() && path_key(#[trigger] old(tree)@[j].path@) == k;
            assert(tree@[j] == before[j]);
            assert(tree@[j].path == orig[j].path);
        }
    }
}

/// Number of backslashes in a text.
fn backslash_count(s: &str) -> (r: usize)
    ensures
        r == crate::text::count_char(s@, '\\'),
{
    let v = chars_of(s);
    crate::text::count_char_in(v.as_slice(), '\\')
}

/// The inputs handed to the flat merge when the keyed merge cannot place
/// every change.
struct KeyedMergeFallback {
    old_tree: Vec<DirectoryNode>,
    changed_dirs: Vec<DirectoryNode>,
    deleted_paths: Vec<String>,
}

/// A change triple filed under its node's key.
pub open spec fn triple_keyed(e: (usize, String, DirectoryNode)) -> bool {
    e.1@ == path_key(e.2.path@)
}

/// The parent of a changed directory is the scan root.
pub open spec fn parent_is_root(n: DirectoryNode, root_key: Seq<char>) -> bool {
    &&& parent_path_spec(n.path@) is Some
    &&& path_key(parent_path_spec(n.path@)->0) == root_key
}

/// Every changed directory has a parent path.
pub open spec fn all_have_parents(s: Seq<DirectoryNode>) -> bool {
    forall|q: int| 0 <= q < s.len() ==> (#[trigger] parent_path_spec(s[q].path@)) is Some
}

/// Every changed directory whose parent is the scan root has a top-level
/// node of its key in `t`.
pub open spec fn top_changes_placed(t: Seq<DirectoryNode>, changed: Seq<DirectoryNode>, root_key: Seq<char>) -> bool {
    forall|q: int|
        0 <= q < changed.len() && #[trigger] parent_is_root(changed[q], root_key) ==> key_at_top(
            t,
            path_key(changed[q].path@),
        )
}

/// Deletion triples ordered by depth, deepest first.
pub open spec fn deepest_first(s: Seq<(String, String, usize)>) -> bool {
    forall|i: int, j: int| 0 <= i < j < s.len() ==> s[i].2 >= s[j].2
}

/// Change triples ordered by depth, shallowest first.
pub open spec fn shallowest_first(s: Seq<(usize, String, DirectoryNode)>) -> bool {
    forall|i: int, j: int| 0 <= i < j < s.len() ==> s[i].0 <= s[j].0
}

/// Stable sort of (raw path, key, depth) triples by depth, deepest first.
fn sort_deletions_deepest_first(v: &mut Vec<(String, String, usize)>)
    ensures
        final(v)@.len() == old(v)@.len(),
        deepest_first(final(v)@),
        final(v)@.to_multiset() == old(v)@.to_multiset(),
{
    let n = v.len();
    if n == 0 {
        return;
    }
    let mut i: usize = 1;
    while i < n
        invariant
            1 <= i <= n,
            v.len() == n,
            deepest_first(v@.take(i as int)),
            v@.to_multiset() == old(v)@.to_multiset(),
        decreases n - i,
    {
        let mut j: usize = i;
        assert forall|a: int, b: int| 0 <= a < b <= i && a != j && b != j implies #[trigger] v@[a].2
            >= #[trigger] v@[b].2 by {
            assert(v@.take(i as int)[a] == v@[a]);
            assert(v@.take(i as int)[b] == v@[b]);
        }
        while j > 0 && v[j - 1].2 < v[j].2
            invariant
                0 <= j <= i < n,
                v.len() == n,
                forall|a: int, b: int| 0 <= a < b <= i && a != j && b != j ==> v@[a].2 >= v@[b].2,
                forall|b: int| j < b <= i ==> v@[j as int].2 > v@[b].2,
                v@.to_multiset() == old(v)@.to_multiset(),
            decreases j,
        {
            let ghost before = v@;
            let x = v.remove(j);
            v.insert(j - 1, x);
            proof {
                vstd::seq_lib::to_multiset_remove(before, j as int);
                vstd::seq_lib::to_multiset_insert(before.remove(j as int), j - 1, x);
                before.to_multiset_ensures();
                assert(before.to_multiset().contains(x));
                assert(before.to_multiset().remove(x).insert(x) =~= before.to_multiset());
                assert(v@ =~= before.update(j - 1, before[j as int]).update(j as int, before[j - 1]));
            }
            j = j - 1;
        }
        proof {
            assert forall|a: int, b: int| 0 <= a < b < i + 1 implies #[trigger] v@.take(i + 1)[a].2
                >= #[trigger] v@.take(i + 1)[b].2 by {
                if a == j && b > j {
                } else if b == j {
                    if j > 0 {
                    }
                }
            }
        }
        i = i + 1;
    }
    assert(v@.take(n as int) =~= v@);
}

/// Stable sort of (depth, key, node) triples by depth, shallowest first.
fn sort_changes_shallowest_first(v: &mut Vec<(usize, String, DirectoryNode)>)
    ensures
        final(v)@.len() == old(v)@.len(),
        shallowest_first(final(v)@),
        final(v)@.to_multiset() == old(v)@.to_multiset(),
{
    let n = v.len();
    if n == 0 {
        return;
    }
    let mut i: usize = 1;
    while i < n
        invariant
            1 <= i <= n,
            v.len() == n,
            shallowest_first(v@.take(i as int)),
            v@.to_multiset() == old(v)@.to_multiset(),
        decreases n - i,
    {
        let mut j: usize = i;
        assert forall|a: int, b: int| 0 <= a < b <= i && a != j && b != j implies #[trigger] v@[a].0
            <= #[trigger] v@[b].0 by {
            assert(v@.take(i as int)[a] == v@[a]);
            assert(v@.take(i as int)[b] == v@[b]);
        }
        while j > 0 && v[j - 1].0 > v[j].0
            invariant
                0 <= j <= i < n,
                v.len() == n,
                forall|a: int, b: int| 0 <= a < b <= i && a != j && b != j ==> v@[a].0 <= v@[b].0,
                forall|b: int| j < b <= i ==> v@[j as int].0 < v@[b].0,
                v@.to_multiset() == old(v)@.to_multiset(),
            decreases j,
        {
            let ghost before = v@;
            let x = v.remove(j);
            v.insert(j - 1, x);
            proof {
                vstd::seq_lib::to_multiset_remove(before, j as int);
                vstd::seq_lib::to_multiset_insert(before.remove(j as int), j - 1, x);
                before.to_multiset_ensures();
                assert(before.to_multiset().contains(x));
                assert(before.to_multiset().remove(x).insert(x) =~= before.to_multiset());
                assert(v@ =~= before.update(j - 1, before[j as int]).update(j as int, before[j - 1]));
            }
            j = j - 1;
        }
        proof {
            assert forall|a: int, b: int| 0 <= a < b < i + 1 implies #[trigger] v@.take(i + 1)[a].0
                <= #[trigger] v@.take(i + 1)[b].0 by {
                if a == j && b > j {
                } else if b == j {
                    if j > 0 {
                    }
                }
            }
        }
        i = i + 1;
    }
    assert(v@.take(n as int) =~= v@);
}

/// Applies deletions (deepest first) and then rescanned subtrees
/// (shallowest first) by parent key; hands the inputs on for the flat merge
/// when a change touches the root itself or cannot be located.
fn merge_scan_results_keyed(
    old_tree: Vec<DirectoryNode>,
    changed_dirs: Vec<DirectoryNode>,
    deleted_paths: Vec<String>,
    root_path: &str,
) -> (r: Result<Vec<DirectoryNode>, KeyedMergeFallback>)
    ensures
        (exists|q: int| 0 <= q < deleted_paths@.len() && path_key(#[trigger] deleted_paths@[q]@) == path_key(root_path@))
            || (exists|q: int| 0 <= q < changed_dirs@.len() && path_key(#[trigger] changed_dirs@[q].path@) == path_key(
            root_path@)) ==> (r matches Err(fb) && fb.old_tree@ == old_tree@ && fb.changed_dirs@ == changed_dirs@
            && fb.deleted_paths@ == deleted_paths@),
        deleted_paths@.len() == 0 && changed_dirs@.len() == 0 ==> (r matches Ok(t) && t@.len() == old_tree@.len()),
        r matches Ok(t) ==> sorted_by_size(t@) && tree_sorted(t@),
        changed_dirs@.len() > 0 ==> (r matches Ok(t) ==> t@.len() > 0),
        changed_dirs@.len() > 0 ==> (r matches Err(fb) ==> fb.changed_dirs@.len() > 0),
        all_have_parents(changed_dirs@) ==> (r matches Err(fb) ==> fb.changed_dirs@ == changed_dirs@),
        all_have_parents(changed_dirs@) ==> (r matches Ok(t) ==> top_changes_placed(t@, changed_dirs@, path_key(root_path@))),
{
    let root_key = normalized_path_key_str(root_path);
    let mut delete_keys: Vec<String> = Vec::new();
    let mut i: usize = 0;
    while i < deleted_paths.len()
        invariant
            i <= deleted_paths.len(),
            delete_keys.len() == i,
            root_key@ == path_key(root_path@),
            forall|q: int| 0 <= q < i ==> path_key(#[trigger] deleted_paths@[q]@) != path_key(root_path@),
        decreases deleted_paths.len() - i,
    {
        let key = normalized_path_key_str(deleted_paths[i].as_str());
        if str_eq(key.as_str(), root_key.as_str()) {
            return Err(KeyedMergeFallback { old_tree, changed_dirs, deleted_paths });
        }
        delete_keys.push(key);
        i = i + 1;
    }
    let mut change_keys: Vec<String> = Vec::new();
    let mut c: usize = 0;
    while c < changed_dirs.len()
        invariant
            c <= changed_dirs.len(),
            change_keys.len() == c,
            root_key@ == path_key(root_path@),
            forall|q: int| 0 <= q < deleted_paths@.len() ==> path_key(#[trigger] deleted_paths@[q]@) != path_key(root_path@),
            forall|q: int| 0 <= q < c ==> path_key(#[trigger] changed_dirs@[q].path@) != path_key(root_path@),
            forall|q: int| 0 <= q < c ==> #[trigger] change_keys@[q]@ == path_key(changed_dirs@[q].path@),
        decreases changed_dirs.len() - c,
    {
        let key = normalized_path_key_str(changed_dirs[c].path.as_str());
        if str_eq(key.as_str(), root_key.as_str()) {
            return Err(KeyedMergeFallback { old_tree, changed_dirs, deleted_paths });
        }
        change_keys.push(key);
        c = c + 1;
    }

    let ghost n_deleted = deleted_paths@.len();
    let ghost n_changed = changed_dirs@.len();
    let ghost old_len = old_tree@.len();
    let mut tree = old_tree;
    let mut delete_pairs: Vec<(String, String, usize)> = Vec::new();
    let mut d: usize = 0;
    while d < deleted_paths.len()
        invariant
            d <= deleted_paths.len(),
            delete_keys.len() == deleted_paths.len(),
            delete_pairs.len() == d,
            change_keys@.len() == n_changed,
            forall|q: int| 0 <= q < n_changed ==> #[trigger] change_keys@[q]@ == path_key(changed_dirs@[q].path@),
            n_deleted == deleted_paths@.len(),
            n_changed == changed_dirs@.len(),
            old_len == old_tree@.len(),
            forall|q: int| 0 <= q < deleted_paths@.len() ==> path_key(#[trigger] deleted_paths@[q]@) != path_key(root_path@),
            forall|q: int| 0 <= q < changed_dirs@.len() ==> path_key(#[trigger] changed_dirs@[q].path@) != path_key(root_path@),
        decreases deleted_paths.len() - d,
    {
        let raw = crate::text::owned(deleted_paths[d].as_str());
        let key = crate::text::owned(delete_keys[d].as_str());
        let depth = backslash_count(delete_keys[d].as_str());
        delete_pairs.push((raw, key, depth));
        d = d + 1;
    }
    sort_deletions_deepest_first(&mut delete_pairs);
    let mut p: usize = 0;
    while p < delete_pairs.len()
        invariant
            delete_pairs@.len() == n_deleted,
            change_keys@.len() == n_changed,
            forall|q: int| 0 <= q < n_changed ==> #[trigger] change_keys@[q]@ == path_key(changed_dirs@[q].path@),
            n_deleted == deleted_paths@.len(),
            n_changed == changed_dirs@.len(),
            old_len == old_tree@.len(),
            forall|q: int| 0 <= q < deleted_paths@.len() ==> path_key(#[trigger] deleted_paths@[q]@) != path_key(root_path@),
            forall|q: int| 0 <= q < changed_dirs@.len() ==> path_key(#[trigger] changed_dirs@[q].path@) != path_key(root_path@),
            n_deleted == 0 ==> tree@.len() == old_len,
        decreases delete_pairs.len() - p,
    {
        let parent = parent_key(delete_pairs[p].0.as_str());
        match parent {
            None => {
                return Err(KeyedMergeFallback { old_tree: tree, changed_dirs, deleted_paths });
            },
            Some(pk) => {
                if !apply_delete(&mut tree, pk.as_str(), delete_pairs[p].1.as_str(), root_key.as_str()) {
                    return Err(KeyedMergeFallback { old_tree: tree, changed_dirs, deleted_paths });
                }
            },
        }
        p = p + 1;
    }

    let mut indexed: Vec<(usize, String, DirectoryNode)> = Vec::new();
    let mut changed = changed_dirs;
    let mut keys = change_keys;
    // consumed from the back, so reversed first to keep the input order
    let mut rev: Vec<(usize, String, DirectoryNode)> = Vec::new();
    let ghost ck = keys@;
    while changed.len() > 0 && keys.len() > 0
        invariant
            changed@.len() + rev@.len() == n_changed,
            changed@.len() == keys@.len(),
            changed@ == changed_dirs@.take(changed@.len() as int),
            keys@ == ck.take(keys@.len() as int),
            ck.len() == n_changed,
            forall|q: int| 0 <= q < n_changed ==> #[trigger] ck[q]@ == path_key(changed_dirs@[q].path@),
            forall|m: int|
                0 <= m < rev@.len() ==> #[trigger] rev@[m].2 == changed_dirs@[n_changed - 1 - m] && triple_keyed(
                    rev@[m],
                ),
            n_deleted == deleted_paths@.len(),
            n_changed == changed_dirs@.len(),
            old_len == old_tree@.len(),
            forall|q: int| 0 <= q < deleted_paths@.len() ==> path_key(#[trigger] deleted_paths@[q]@) != path_key(root_path@),
            forall|q: int| 0 <= q < changed_dirs@.len() ==> path_key(#[trigger] changed_dirs@[q].path@) != path_key(root_path@),
        decreases changed.len(),
    {
        let ghost cl = changed@.len() as int;
        let node = changed.pop().unwrap();
        let key = keys.pop().unwrap();
        proof {
            assert(changed_dirs@.take(cl)[cl - 1] == changed_dirs@[cl - 1]);
            assert(ck.take(cl)[cl - 1] == ck[cl - 1]);
            assert(changed@ =~= changed_dirs@.take(cl - 1));
            assert(keys@ =~= ck.take(cl - 1));
        }
        let depth = backslash_count(key.as_str());
        rev.push((depth, key, node));
    }
    let ghost rev0 = rev@;
    while rev.len() > 0
        invariant
            indexed@.len() + rev@.len() == n_changed,
            rev0.len() == n_changed,
            rev@ == rev0.take(rev@.len() as int),
            forall|m: int| 0 <= m < indexed@.len() ==> #[trigger] indexed@[m] == rev0[n_changed - 1 - m],
            n_deleted == deleted_paths@.len(),
            n_changed == changed_dirs@.len(),
            old_len == old_tree@.len(),
            forall|q: int| 0 <= q < deleted_paths@.len() ==> path_key(#[trigger] deleted_paths@[q]@) != path_key(root_path@),
            forall|q: int| 0 <= q < changed_dirs@.len() ==> path_key(#[trigger] changed_dirs@[q].path@) != path_key(root_path@),
        decreases rev.len(),
    {
        let ghost rl = rev@.len() as int;
        indexed.push(rev.pop().unwrap());
        proof {
            assert(rev0.take(rl)[rl - 1] == rev0[rl - 1]);
            assert(rev@ =~= rev0.take(rl - 1));
        }
    }
    let ghost idx0 = indexed@;
    proof {
        assert forall|m: int| 0 <= m < n_changed implies #[trigger] idx0[m].2 == changed_dirs@[m] && triple_keyed(idx0[m]) by {
            assert(idx0[m] == rev0[n_changed - 1 - m]);
        }
    }
    sort_changes_shallowest_first(&mut indexed);
    let ghost srt = indexed@;
    let mut remaining = Vec::new();
    while indexed.len() > 0
        invariant
            indexed@.len() + remaining@.len() == n_changed,
            srt.len() == n_changed,
            indexed@ == srt.take(indexed@.len() as int),
            forall|m: int| 0 <= m < remaining@.len() ==> #[trigger] remaining@[m] == srt[n_changed - 1 - m],
            n_deleted == deleted_paths@.len(),
            n_changed == changed_dirs@.len(),
            old_len == old_tree@.len(),
            forall|q: int| 0 <= q < deleted_paths@.len() ==> path_key(#[trigger] deleted_paths@[q]@) != path_key(root_path@),
            forall|q: int| 0 <= q < changed_dirs@.len() ==> path_key(#[trigger] changed_dirs@[q].path@) != path_key(root_path@),
        decreases indexed.len(),
    {
        let ghost il = indexed@.len() as int;
        remaining.push(indexed.pop().unwrap());
        proof {
            assert(srt.take(il)[il - 1] == srt[il - 1]);
            assert(indexed@ =~= srt.take(il - 1));
        }
    }
    proof {
        idx0.to_multiset_ensures();
        srt.to_multiset_ensures();
        assert forall|m: int| 0 <= m < remaining@.len() implies idx0.contains(#[trigger] remaining@[m]) by {
            let e = srt[n_changed - 1 - m];
            assert(srt.contains(e));
            assert(srt.to_multiset().count(e) > 0);
            assert(idx0.to_multiset().count(e) > 0);
        }
        assert forall|q: int| 0 <= q < n_changed implies remaining@.contains(#[trigger] idx0[q]) by {
            let e = idx0[q];
            assert(idx0.contains(e));
            assert(idx0.to_multiset().count(e) > 0);
            assert(srt.to_multiset().count(e) > 0);
            assert(srt.contains(e));
            let p = choose|p: int| 0 <= p < srt.len() && srt[p] == e;
            assert(remaining@[n_changed - 1 - p] == srt[p]);
        }
    }
    while remaining.len() > 0
        invariant
            remaining@.len() <= n_changed,
            n_deleted == deleted_paths@.len(),
            n_changed == changed_dirs@.len(),
            old_len == old_tree@.len(),
            forall|q: int| 0 <= q < deleted_paths@.len() ==> path_key(#[trigger] deleted_paths@[q]@) != path_key(root_path@),
            forall|q: int| 0 <= q < changed_dirs@.len() ==> path_key(#[trigger] changed_dirs@[q].path@) != path_key(root_path@),
            n_deleted == 0 && n_changed == 0 ==> tree@.len() == old_len,
            n_changed > 0 ==> tree@.len() > 0 || remaining@.len() > 0,
            idx0.len() == n_changed,
            forall|m: int| 0 <= m < n_changed ==> #[trigger] idx0[m].2 == changed_dirs@[m] && triple_keyed(idx0[m]),
            forall|m: int| 0 <= m < remaining@.len() ==> idx0.contains(#[trigger] remaining@[m]),
            root_key@ == path_key(root_path@),
            forall|q: int|
                0 <= q < n_changed && #[trigger] parent_is_root(changed_dirs@[q], root_key@) ==> key_at_top(
                    tree@,
                    path_key(changed_dirs@[q].path@),
                ) || remaining@.contains(idx0[q]),
        decreases remaining.len(),
    {
        let ghost rem_before = remaining@;
        let ghost tree_before = tree@;
        let e = remaining.pop().unwrap();
        let ghost eg = e;
        proof {
            assert(rem_before[rem_before.len() - 1] == eg);
            assert(remaining@ =~= rem_before.drop_last());
            assert(idx0.contains(rem_before[rem_before.len() - 1]));
        }
        let ghost qe = choose|q: int| 0 <= q < idx0.len() && idx0[q] == eg;
        proof {
            assert(idx0[qe].2 == changed_dirs@[qe]);
            assert(triple_keyed(idx0[qe]));
        }
        let (_, key, node) = e;
        match parent_key(node.path.as_str()) {
            None => {
                proof {
                    if all_have_parents(changed_dirs@) {
                        assert(parent_path_spec(changed_dirs@[qe].path@) is Some);
                    }
                }
                let mut only = Vec::new();
                only.push(node);
                return Err(KeyedMergeFallback { old_tree: tree, changed_dirs: only, deleted_paths: Vec::new() });
            },
            Some(pk) => {
                apply_upsert(&mut tree, pk.as_str(), key.as_str(), root_key.as_str(), node);
                proof {
                    assert forall|q: int|
                        0 <= q < n_changed && #[trigger] parent_is_root(changed_dirs@[q], root_key@) implies key_at_top(
                        tree@,
                        path_key(changed_dirs@[q].path@),
                    ) || remaining@.contains(idx0[q]) by {
                        if key_at_top(tree_before, path_key(changed_dirs@[q].path@)) {
                        } else {
                            assert(rem_before.contains(idx0[q]));
                            let m = choose|m: int| 0 <= m < rem_before.len() && rem_before[m] == idx0[q];
                            if m == rem_before.len() - 1 {
                                assert(idx0[q] == eg);
                                assert(idx0[q].2 == changed_dirs@[q]);
                            } else {
                                assert(remaining@[m] == idx0[q]);
                            }
                        }
                    }
                }
            },
        }
    }
    let ghost placed = tree@;
    sort_directory_tree(&mut tree);
    proof {
        assert forall|q: int|
            0 <= q < n_changed && #[trigger] parent_is_root(changed_dirs@[q], root_key@) implies key_at_top(
            tree@,
            path_key(changed_dirs@[q].path@),
        ) by {
            assert(remaining@.len() == 0);
            let k = path_key(changed_dirs@[q].path@);
            assert(key_at_top(placed, k));
            let j = choose|j: int| 0 <= j < placed.len() && path_key(#[trigger] placed[j].path@) == k;
            let j2 = choose|j2: int| 0 <= j2 < tree@.len() && tree@[j2].path == #[trigger] placed[j].path;
            assert(path_key(tree@[j2].path@) == k);
        }
    }
    Ok(tree)
}


// ---------------------------------------------------------------------------
// Flat merge: rebuild the tree from a key-indexed table of nodes
// ---------------------------------------------------------------------------

pub proof fn lemma_forest_count_child(s: Seq<DirectoryNode>, i: int)
    requires
        0 <= i < s.len(),
    ensures
        forest_count(s[i].children@) < forest_count(s),
    decreases s.len(),
{
    assert(decreases_to!(s => s.last()));
    if i < s.len() - 1 {
        assert(s.drop_last()[i] == s[i]);
        lemma_forest_count_child(s.drop_last(), i);
    }
}

/// A node with no content, used to fill a slot whose node was moved out.
fn placeholder_node() -> (r: DirectoryNode)
    ensures
        r.path@.len() == 0,
        r.name@.len() == 0,
        r.size == 0,
        r.file_count == 0,
        r.dir_count == 0,
        r.children@.len() == 0,
        !r.has_children,
        !r.is_symlink,
        r.link_target is None,
        r.safety is None,
        r.modified_time is None,
        r.file_id is None,
{
    DirectoryNode {
        path: String::new(),
        name: String::new(),
        size: 0,
        file_count: 0,
        dir_count: 0,
        children: Vec::new(),
        has_children: false,
        is_symlink: false,
        link_target: None,
        safety: None,
        modified_time: None,
        file_id: None,
    }
}

/// Position of `key` in a key-indexed table.
fn flat_find(flat: &Vec<(String, DirectoryNode)>, key: &str) -> (r: Option<usize>)
    ensures
        r matches Some(i) ==> i < flat.len() && flat@[i as int].0@ == key@
            && forall|j: int| 0 <= j < i ==> #[trigger] flat@[j].0@ != key@,
        r is None ==> forall|j: int| 0 <= j < flat@.len() ==> #[trigger] flat@[j].0@ != key@,
{
    let mut i: usize = 0;
    while i < flat.len()
        invariant
            i <= flat.len(),
            forall|j: int| 0 <= j < i ==> #[trigger] flat@[j].0@ != key@,
        decreases flat.len() - i,
    {
        if str_eq(flat[i].0.as_str(), key) {
            return Some(i);
        }
        i = i + 1;
    }
    None
}

/// Inserts or replaces the entry of `key`.
fn flat_insert(flat: &mut Vec<(String, DirectoryNode)>, key: String, node: DirectoryNode)
    ensures
        (exists|i: int| 0 <= i < old(flat)@.len() && #[trigger] old(flat)@[i].0@ == key@) ==> exists|i: int|
            0 <= i < old(flat)@.len() && old(flat)@[i].0@ == key@ && (forall|j: int|
            0 <= j < i ==> #[trigger] old(flat)@[j].0@ != key@) && final(flat)@ == old(flat)@.update(i, (key, node)),
        (forall|j: int| 0 <= j < old(flat)@.len() ==> #[trigger] old(flat)@[j].0@ != key@) ==> final(flat)@ == old(
            flat,
        )@.push((key, node)),
{
    match flat_find(flat, key.as_str()) {
        Some(i) => {
            let ghost before = flat@;
            let ghost entry = (key, node);
            let _ = flat.remove(i);
            flat.insert(i, (key, node));
            assert(flat@ =~= before.update(i as int, entry));
        },
        None => {
            flat.push((key, node));
        },
    }
}

/// The table has an entry of key `k`.
pub open spec fn table_has(flat: Seq<(String, DirectoryNode)>, k: Seq<char>) -> bool {
    exists|j: int| 0 <= j < flat.len() && #[trigger] flat[j].0@ == k
}

/// Every key the table had, it keeps.
pub open spec fn keeps_keys(before: Seq<(String, DirectoryNode)>, after: Seq<(String, DirectoryNode)>) -> bool {
    forall|k: Seq<char>| #[trigger] table_has(before, k) ==> table_has(after, k)
}

proof fn lemma_flat_insert_keys(before: Seq<(String, DirectoryNode)>, after: Seq<(String, DirectoryNode)>, key: Seq<char>)
    requires
        (exists|i: int| 0 <= i < before.len() && before[i].0@ == key && after == before.update(i, after[i])
            && after[i].0@ == key) || (after.len() == before.len() + 1 && after.drop_last() == before
            && after.last().0@ == key),
    ensures
        keeps_keys(before, after),
        table_has(after, key),
{
    if exists|i: int| 0 <= i < before.len() && before[i].0@ == key && after == before.update(i, after[i])
        && after[i].0@ == key {
        let i = choose|i: int| 0 <= i < before.len() && before[i].0@ == key && after == before.update(i, after[i])
            && after[i].0@ == key;
        assert(after[i].0@ == key);
        assert forall|k: Seq<char>| #[trigger] table_has(before, k) implies table_has(after, k) by {
            let j = choose|j: int| 0 <= j < before.len() && #[trigger] before[j].0@ == k;
            if j == i {
                assert(after[i].0@ == k);
            } else {
                assert(after[j] == before[j]);
            }
        }
    } else {
        let n = before.len() as int;
        assert(after[n].0@ == key);
        assert forall|k: Seq<char>| #[trigger] table_has(before, k) implies table_has(after, k) by {
            let j = choose|j: int| 0 <= j < before.len() && #[trigger] before[j].0@ == k;
            assert(after[j] == after.drop_last()[j]);
        }
    }
}

/// Every entry of the table is filed under its node's key.
pub open spec fn table_keyed(flat: Seq<(String, DirectoryNode)>) -> bool {
    forall|j: int| 0 <= j < flat.len() ==> path_key(#[trigger] flat[j].1.path@) == flat[j].0@
}

/// Moves every node of a forest into the table (children detached),
/// parents before their children: afterwards the table holds the key of
/// every node of the forest and every key it held before.
fn flatten_tree(forest: Vec<DirectoryNode>, flat: &mut Vec<(String, DirectoryNode)>)
    ensures
        keeps_keys(old(flat)@, final(flat)@),
        table_keyed(old(flat)@) ==> table_keyed(final(flat)@),
        forall|k: int| 0 <= k < preorder_paths(forest@).len() ==> table_has(
            final(flat)@,
            path_key(#[trigger] preorder_paths(forest@)[k]),
        ),
    decreases forest_count(forest@),
{
    let ghost orig = forest@;
    let mut nodes = forest;
    let mut i: usize = 0;
    while i < nodes.len()
        invariant
            orig == forest@,
            i <= nodes.len(),
            nodes.len() == orig.len(),
            forall|j: int| i <= j < orig.len() ==> nodes@[j] == orig[j],
            keeps_keys(old(flat)@, flat@),
            table_keyed(old(flat)@) ==> table_keyed(flat@),
            forall|k: int| 0 <= k < preorder_paths(orig.take(i as int)).len() ==> table_has(
                flat@,
                path_key(#[trigger] preorder_paths(orig.take(i as int))[k]),
            ),
        decreases nodes.len() - i,
    {
        let ghost f0 = flat@;
        let ghost done = preorder_paths(orig.take(i as int));
        let mut node = placeholder_node();
        std::mem::swap(&mut node, &mut nodes[i]);
        let mut children: Vec<DirectoryNode> = Vec::new();
        std::mem::swap(&mut children, &mut node.children);
        proof {
            lemma_forest_count_child(orig, i as int);
        }
        assert(node.path == orig[i as int].path);
        assert(children@ == orig[i as int].children@);
        let key = normalized_path_key_str(node.path.as_str());
        let ghost kv = key@;
        let ghost kk = key;
        let ghost nd = node;
        flat_insert(flat, key, node);
        proof {
            if exists|q: int| 0 <= q < f0.len() && #[trigger] f0[q].0@ == kv {
                let q = choose|q: int| 0 <= q < f0.len() && f0[q].0@ == kv && (forall|j: int|
                    0 <= j < q ==> #[trigger] f0[j].0@ != kv) && flat@ == f0.update(q, (kk, nd));
                assert(flat@[q] == (kk, nd));
                lemma_flat_insert_keys(f0, flat@, kv);
                if table_keyed(old(flat)@) {
                    assert forall|j: int| 0 <= j < flat@.len() implies path_key(#[trigger] flat@[j].1.path@) == flat@[j].0@ by {
                        if j != q {
                            assert(flat@[j] == f0[j]);
                        }
                    }
                }
            } else {
                assert(flat@.drop_last() =~= f0);
                lemma_flat_insert_keys(f0, flat@, kv);
                if table_keyed(old(flat)@) {
                    assert forall|j: int| 0 <= j < flat@.len() implies path_key(#[trigger] flat@[j].1.path@) == flat@[j].0@ by {
                        if j < f0.len() {
                            assert(flat@[j] == f0[j]);
                        } else {
                            assert(flat@[j] == (kk, nd));
                        }
                    }
                }
            }
        }
        let ghost f1 = flat@;
        flatten_tree(children, flat);
        proof {
            let t = orig.take(i as int + 1);
            assert(t.drop_last() =~= orig.take(i as int));
            assert(t.last() == orig[i as int]);
            let whole = preorder_paths(t);
            assert(whole == done + seq![orig[i as int].path@] + preorder_paths(orig[i as int].children@));
            assert forall|k: Seq<char>| #[trigger] table_has(old(flat)@, k) implies table_has(flat@, k) by {
                assert(table_has(f0, k));
                assert(table_has(f1, k));
            }
            assert forall|k: int| 0 <= k < whole.len() implies table_has(flat@, path_key(#[trigger] whole[k])) by {
                if k < done.len() {
                    assert(whole[k] == done[k]);
                    assert(table_has(f0, path_key(done[k])));
                    assert(table_has(f1, path_key(done[k])));
                } else if k == done.len() {
                    assert(whole[k] == orig[i as int].path@);
                    assert(table_has(f1, kv));
                } else {
                    let c = preorder_paths(orig[i as int].children@);
                    assert(whole[k] == c[k - done.len() - 1]);
                }
            }
        }
        i = i + 1;
    }
    assert(orig.take(orig.len() as int) =~= orig);
}

/// Where the name starting at `i` ends: the next separator, or the end.
pub open spec fn name_end(v: Seq<char>, i: int) -> int
    decreases v.len() - i,
{
    if 0 <= i < v.len() && !is_sep(v[i]) {
        name_end(v, i + 1)
    } else {
        i
    }
}

proof fn lemma_name_end_bounds(v: Seq<char>, i: int)
    requires
        0 <= i <= v.len(),
    ensures
        i <= name_end(v, i) <= v.len(),
    decreases v.len() - i,
{
    if i < v.len() && !is_sep(v[i]) {
        lemma_name_end_bounds(v, i + 1);
    }
}

/// The names of `v` from position `i` on, other than `.`.
pub open spec fn names_from(v: Seq<char>, i: int) -> nat
    decreases v.len() - i,
{
    if i < 0 || i >= v.len() {
        0
    } else if is_sep(v[i]) {
        names_from(v, i + 1)
    } else {
        let e = name_end(v, i);
        if e <= i || e > v.len() {
            0
        } else {
            (if e == i + 1 && v[i] == '.' { 0nat } else { 1nat }) + names_from(v, e)
        }
    }
}

/// The number of components of a Windows path: its drive, its root
/// separator and each name other than `.`.
pub open spec fn component_count_spec(v: Seq<char>) -> nat {
    let d = drive_prefix_len(v);
    let root = d < v.len() && is_sep(v[d]);
    (if d == 2 { 1nat } else { 0nat }) + (if root { 1nat } else { 0nat }) + names_from(v, if root { d + 1 } else { d })
}

/// Number of components of a Windows path (see [`component_count_spec`]).
fn component_count(path: &str) -> (r: usize)
    ensures
        r == component_count_spec(path@),
{
    let v = chars_of(path);
    let mut count: usize = 0;
    let mut i: usize = 0;
    // the drive prefix and the root separator
    if v.len() >= 2 && v[1] == ':' && is_ascii_letter(v[0]) {
        count = 1;
        i = 2;
    }
    if i < v.len() && (v[i] == '\\' || v[i] == '/') {
        count = count + 1;
        i = i + 1;
    }
    while i < v.len()
        invariant
            i <= v.len(),
            v@ == path@,
            count <= i,
            count + names_from(v@, i as int) == component_count_spec(path@),
        decreases v.len() - i,
    {
        if v[i] == '\\' || v[i] == '/' {
            i = i + 1;
        } else {
            let start = i;
            proof {
                lemma_name_end_bounds(v@, start as int);
            }
            while i < v.len() && !(v[i] == '\\' || v[i] == '/')
                invariant
                    start <= i <= v.len(),
                    name_end(v@, i as int) == name_end(v@, start as int),
                decreases v.len() - i,
            {
                i = i + 1;
            }
            assert(name_end(v@, i as int) == i);
            let is_dot = i == start + 1 && v[start] == '.';
            if !is_dot {
                count = count + 1;
            }
        }
    }
    count
}

/// The keys of a table's entries, in order.
pub open spec fn entry_keys(flat: Seq<(String, DirectoryNode)>) -> Seq<Seq<char>> {
    Seq::new(flat.len(), |j: int| flat[j].0@)
}

/// The nodes of a table's entries, in order.
pub open spec fn entry_nodes(flat: Seq<(String, DirectoryNode)>) -> Seq<DirectoryNode> {
    Seq::new(flat.len(), |j: int| flat[j].1)
}

/// How many nodes a table holds, each entry with everything attached
/// below it.
pub open spec fn table_weight(flat: Seq<(String, DirectoryNode)>) -> int {
    crate::tree::sum_by(entry_nodes(flat), |n: DirectoryNode| weight_of(n))
}

/// The keys of the (depth, key) pairs that drive the rebuild.
pub open spec fn order_keys(order: Seq<(usize, String)>) -> Seq<Seq<char>> {
    Seq::new(order.len(), |j: int| order[j].1@)
}

/// How many nodes keyed `k` a table holds, counting everything attached
/// below its entries.
pub open spec fn table_key_weight(flat: Seq<(String, DirectoryNode)>, k: Seq<char>) -> int {
    crate::tree::sum_by(entry_nodes(flat), |n: DirectoryNode| key_weight(n, k))
}

proof fn lemma_key_count_push(s: Seq<DirectoryNode>, x: DirectoryNode, k: Seq<char>)
    ensures
        key_count(s.push(x), k) == key_count(s, k) + key_weight(x, k),
{
    assert(s.push(x).drop_last() =~= s);
    assert(s.push(x).last() == x);
}

proof fn lemma_forest_count_push(s: Seq<DirectoryNode>, x: DirectoryNode)
    ensures
        forest_count(s.push(x)) == forest_count(s) + weight_of(x),
{
    assert(s.push(x).drop_last() =~= s);
    assert(s.push(x).last() == x);
}

/// Rebuilds a forest from a table: deepest nodes first, each node is
/// attached to its parent when the parent is in the table and is not the
/// scan root; every other node becomes a top-level node. Every node of the
/// table ends up in the forest.
pub(crate) fn rebuild_tree(flat: Vec<(String, DirectoryNode)>, root_path: &str) -> (r: Vec<DirectoryNode>)
    ensures
        sorted_by_size(r@),
        tree_sorted(r@),
        forest_count(r@) == table_weight(flat@),
        forall|k: Seq<char>| #[trigger] key_count(r@, k) == table_key_weight(flat@, k),
{
    let ghost total = table_weight(flat@);
    let ghost flat0 = flat@;
    let mut flat = flat;
    let root_key = normalized_path_key_str(root_path);
    // (depth, key), deepest first, ties in table order
    let mut order: Vec<(usize, String)> = Vec::new();
    let mut i: usize = 0;
    while i < flat.len()
        invariant
            i <= flat.len(),
            order_keys(order@) == entry_keys(flat@).take(i as int),
        decreases flat.len() - i,
    {
        let depth = component_count(flat[i].1.path.as_str());
        let ghost before = order@;
        order.push((depth, crate::text::owned(flat[i].0.as_str())));
        assert(order_keys(order@) =~= entry_keys(flat@).take(i as int + 1)) by {
            assert(order_keys(order@) =~= order_keys(before).push(flat@[i as int].0@));
        }
        i = i + 1;
    }
    assert(entry_keys(flat@).take(flat@.len() as int) =~= entry_keys(flat@));
    let n = order.len();
    let mut a: usize = 1;
    while a < n
        invariant
            order.len() == n,
            order_keys(order@).to_multiset() == entry_keys(flat@).to_multiset(),
        decreases n - a,
    {
        let mut b: usize = a;
        while b > 0 && order[b - 1].0 < order[b].0
            invariant
                b <= a < n,
                order.len() == n,
                order_keys(order@).to_multiset() == entry_keys(flat@).to_multiset(),
            decreases b,
        {
            let ghost before = order@;
            let x = order.remove(b);
            let ghost xk = x.1@;
            order.insert(b - 1, x);
            proof {
                let kb = order_keys(before);
                assert(order_keys(before.remove(b as int)) =~= kb.remove(b as int));
                assert(order_keys(order@) =~= kb.remove(b as int).insert(b - 1, xk));
                vstd::seq_lib::to_multiset_remove(kb, b as int);
                vstd::seq_lib::to_multiset_insert(kb.remove(b as int), b - 1, xk);
                kb.to_multiset_ensures();
                assert(kb.to_multiset().contains(xk));
                assert(kb.to_multiset().remove(xk).insert(xk) =~= kb.to_multiset());
            }
            b = b - 1;
        }
        a = a + 1;
    }
    let mut roots: Vec<DirectoryNode> = Vec::new();
    assert(order_keys(order@).skip(0) =~= order_keys(order@));
    let mut k: usize = 0;
    while k < order.len()
        invariant
            k <= order.len(),
            forest_count(roots@) + table_weight(flat@) == total,
            forall|x: Seq<char>| #[trigger] key_count(roots@, x) + table_key_weight(flat@, x) == table_key_weight(flat0, x),
            forall|x: Seq<char>| #[trigger] entry_keys(flat@).to_multiset().count(x) <= order_keys(order@).skip(
                k as int,
            ).to_multiset().count(x),
        decreases order.len() - k,
    {
        let ghost ok = order_keys(order@);
        let ghost rest = ok.skip(k as int);
        proof {
            assert(ok.skip(k as int + 1) =~= rest.remove(0));
            vstd::seq_lib::to_multiset_remove(rest, 0);
            assert(rest[0] == order@[k as int].1@);
        }
        match flat_find(&flat, order[k].1.as_str()) {
            None => {
                proof {
                    let kk = order@[k as int].1@;
                    let ek = entry_keys(flat@);
                    ek.to_multiset_ensures();
                    if ek.contains(kk) {
                        let j = choose|j: int| 0 <= j < ek.len() && ek[j] == kk;
                        assert(flat@[j].0@ == kk);
                    }
                    assert(ek.to_multiset().count(kk) == 0);
                }
            },
            Some(pos) => {
                let ghost f0 = flat@;
                let (node_key, node) = flat.remove(pos);
                proof {
                    let ek = entry_keys(f0);
                    assert(entry_keys(flat@) =~= ek.remove(pos as int));
                    vstd::seq_lib::to_multiset_remove(ek, pos as int);
                    assert(entry_nodes(flat@) =~= entry_nodes(f0).remove(pos as int));
                    crate::tree::lemma_sum_remove(entry_nodes(f0), pos as int, |n: DirectoryNode| weight_of(n));
                    assert(entry_nodes(f0)[pos as int] == node);
                    assert forall|x: Seq<char>| #[trigger] table_key_weight(flat@, x) == table_key_weight(f0, x)
                        - key_weight(node, x) by {
                        crate::tree::lemma_sum_remove(entry_nodes(f0), pos as int, |n: DirectoryNode| key_weight(n, x));
                    }
                }
                let ghost f1 = flat@;
                let mut attached = false;
                let mut node_slot = Some(node);
                let ghost nd = node;
                if !str_eq(node_key.as_str(), root_key.as_str()) {
                    let parent = match &node_slot {
                        Some(nd) => parent_path(nd.path.as_str()),
                        None => None,
                    };
                    match parent {
                        Some(pp) => {
                            let pk = normalized_path_key_str(pp.as_str());
                            if !str_eq(pk.as_str(), root_key.as_str()) {
                                match flat_find(&flat, pk.as_str()) {
                                    Some(ppos) => {
                                        let (k2, mut parent_node) = flat.remove(ppos);
                                        let ghost pn = parent_node;
                                        parent_node.children.push(node_slot.take().unwrap());
                                        let ghost pn2 = parent_node;
                                        let ghost e2 = (k2, parent_node);
                                        flat.insert(ppos, (k2, parent_node));
                                        attached = true;
                                        proof {
                                            assert(pn == f1[ppos as int].1);
                                            assert(pn2.children@ == pn.children@.push(nd));
                                            lemma_forest_count_push(pn.children@, nd);
                                            assert(weight_of(pn2) == weight_of(pn) + weight_of(nd));
                                            assert(flat@ =~= f1.update(ppos as int, e2));
                                            assert(entry_keys(flat@) =~= entry_keys(f1));
                                            assert(entry_nodes(flat@) =~= entry_nodes(f1).update(ppos as int, pn2));
                                            crate::tree::lemma_sum_update(
                                                entry_nodes(f1),
                                                ppos as int,
                                                pn2,
                                                |n: DirectoryNode| weight_of(n),
                                            );
                                            assert forall|x: Seq<char>| #[trigger] table_key_weight(flat@, x)
                                                == table_key_weight(f1, x) + key_weight(nd, x) by {
                                                lemma_key_count_push(pn.children@, nd, x);
                                                assert(pn2.path == pn.path);
                                                crate::tree::lemma_sum_update(
                                                    entry_nodes(f1),
                                                    ppos as int,
                                                    pn2,
                                                    |n: DirectoryNode| key_weight(n, x),
                                                );
                                            }
                                        }
                                    },
                                    None => {},
                                }
                            }
                        },
                        None => {},
                    }
                }
                if !attached {
                    let ghost r0 = roots@;
                    roots.push(node_slot.unwrap());
                    proof {
                        lemma_forest_count_push(r0, nd);
                        assert forall|x: Seq<char>| #[trigger] key_count(roots@, x) == key_count(r0, x) + key_weight(nd, x) by {
                            lemma_key_count_push(r0, nd, x);
                        }
                    }
                }
            },
        }
        k = k + 1;
    }
    proof {
        let ek = entry_keys(flat@);
        ek.to_multiset_ensures();
        assert(order_keys(order@).skip(order@.len() as int).len() == 0);
        let e = order_keys(order@).skip(order@.len() as int);
        e.to_multiset_ensures();
        if flat@.len() > 0 {
            assert(ek.to_multiset().count(ek[0]) > 0);
            assert(e.to_multiset().len() == 0);
            assert(e.to_multiset().count(ek[0]) == 0);
        }
        assert(entry_nodes(flat@) =~= Seq::<DirectoryNode>::empty());
    }
    sort_directory_tree(&mut roots);
    roots
}

/// Whether `key` is one of `keys` or lies below one of `prefixes`.
fn covered_by(key: &str, exact: &Vec<String>, prefixes: &Vec<String>) -> (r: bool)
    ensures
        r == ((exists|i: int| 0 <= i < exact@.len() && #[trigger] exact@[i]@ == key@) || (exists|j: int|
            0 <= j < prefixes@.len() && is_prefix_of(#[trigger] prefixes@[j]@, key@))),
{
    let mut i: usize = 0;
    while i < exact.len()
        invariant
            i <= exact.len(),
            forall|q: int| 0 <= q < i ==> #[trigger] exact@[q]@ != key@,
        decreases exact.len() - i,
    {
        if str_eq(key, exact[i].as_str()) {
            return true;
        }
        i = i + 1;
    }
    let mut j: usize = 0;
    while j < prefixes.len()
        invariant
            j <= prefixes.len(),
            forall|q: int| 0 <= q < exact@.len() ==> #[trigger] exact@[q]@ != key@,
            forall|q: int| 0 <= q < j ==> !is_prefix_of(#[trigger] prefixes@[q]@, key@),
        decreases prefixes.len() - j,
    {
        if crate::text::starts_with(key, prefixes[j].as_str()) {
            return true;
        }
        j = j + 1;
    }
    false
}

/// `j` is the first entry of the table with key `k`.
pub open spec fn first_entry(flat: Seq<(String, DirectoryNode)>, k: Seq<char>, j: int) -> bool {
    &&& 0 <= j < flat.len()
    &&& flat[j].0@ == k
    &&& forall|q: int| 0 <= q < j ==> #[trigger] flat[q].0@ != k
}

/// The table with the totals of the first entry of key `k` shifted (see
/// [`shifted`]); unchanged when no entry has that key.
pub open spec fn shift_first(flat: Seq<(String, DirectoryNode)>, k: Seq<char>, ds: int, df: int, dd: int) -> Seq<
    (String, DirectoryNode),
> {
    if exists|j: int| #[trigger] first_entry(flat, k, j) {
        let j = choose|j: int| #[trigger] first_entry(flat, k, j);
        flat.update(j, (flat[j].0, shifted(flat[j].1, ds, df, dd)))
    } else {
        flat
    }
}

/// The text of an optional path.
pub open spec fn opt_text(p: Option<String>) -> Option<Seq<char>> {
    match p {
        Some(s) => Some(s@),
        None => None,
    }
}

/// The table after shifting, from `cur` upwards, each ancestor's first
/// entry, stopping at the scan root, above the top, or after `fuel` more
/// steps.
pub open spec fn shift_chain(
    flat: Seq<(String, DirectoryNode)>,
    cur: Option<Seq<char>>,
    root_key: Seq<char>,
    fuel: nat,
    ds: int,
    df: int,
    dd: int,
) -> Seq<(String, DirectoryNode)>
    decreases fuel,
{
    match cur {
        None => flat,
        Some(q) => if path_key(q) == root_key {
            flat
        } else {
            let f1 = shift_first(flat, path_key(q), ds, df, dd);
            if fuel == 0 {
                f1
            } else {
                shift_chain(f1, parent_path_spec(q), root_key, (fuel - 1) as nat, ds, df, dd)
            }
        },
    }
}

proof fn lemma_shift_first_keyed(flat: Seq<(String, DirectoryNode)>, k: Seq<char>, ds: int, df: int, dd: int)
    requires
        table_keyed(flat),
    ensures
        table_keyed(shift_first(flat, k, ds, df, dd)),
        shift_first(flat, k, ds, df, dd).len() == flat.len(),
{
    if exists|j: int| #[trigger] first_entry(flat, k, j) {
        let j = choose|j: int| #[trigger] first_entry(flat, k, j);
        let g = shift_first(flat, k, ds, df, dd);
        assert forall|q: int| 0 <= q < g.len() implies path_key(#[trigger] g[q].1.path@) == g[q].0@ by {
            if q != j {
                assert(g[q] == flat[q]);
            } else {
                assert(g[q].1.path == flat[q].1.path);
            }
        }
    }
}

proof fn lemma_shift_chain_keyed(
    flat: Seq<(String, DirectoryNode)>,
    cur: Option<Seq<char>>,
    root_key: Seq<char>,
    fuel: nat,
    ds: int,
    df: int,
    dd: int,
)
    requires
        table_keyed(flat),
    ensures
        table_keyed(shift_chain(flat, cur, root_key, fuel, ds, df, dd)),
    decreases fuel,
{
    match cur {
        None => {},
        Some(q) => {
            if path_key(q) != root_key {
                lemma_shift_first_keyed(flat, path_key(q), ds, df, dd);
                if fuel > 0 {
                    lemma_shift_chain_keyed(
                        shift_first(flat, path_key(q), ds, df, dd),
                        parent_path_spec(q),
                        root_key,
                        (fuel - 1) as nat,
                        ds,
                        df,
                        dd,
                    );
                }
            }
        },
    }
}

/// Shifts the totals of every ancestor of `path` below the scan root that
/// is in the table (see [`shift_chain`]; the walk is bounded by the length
/// of the path).
fn apply_delta_to_ancestors(
    flat: &mut Vec<(String, DirectoryNode)>,
    path: &str,
    root_key: &str,
    size_delta: i128,
    file_delta: i128,
    dir_delta: i128,
)
    ensures
        final(flat)@ == shift_chain(
            old(flat)@,
            parent_path_spec(path@),
            root_key@,
            path@.len(),
            size_delta as int,
            file_delta as int,
            dir_delta as int,
        ),
{
    let ghost ds = size_delta as int;
    let ghost df = file_delta as int;
    let ghost dd = dir_delta as int;
    let ghost target = shift_chain(old(flat)@, parent_path_spec(path@), root_key@, path@.len(), ds, df, dd);
    let mut current = parent_path(path);
    let mut fuel: usize = crate::text::chars_of(path).len();
    loop
        invariant_except_break
            shift_chain(flat@, opt_text(current), root_key@, fuel as nat, ds, df, dd) == target,
            ds == size_delta as int,
            df == file_delta as int,
            dd == dir_delta as int,
        ensures
            flat@ == target,
        decreases fuel,
    {
        let parent = match current {
            Some(p) => p,
            None => break,
        };
        let key = normalized_path_key_str(parent.as_str());
        if str_eq(key.as_str(), root_key) {
            break;
        }
        let ghost f0 = flat@;
        match flat_find(flat, key.as_str()) {
            Some(pos) => {
                let (k, mut node) = flat.remove(pos);
                let ghost before_node = node;
                assert(k == f0[pos as int].0 && before_node == f0[pos as int].1);
                apply_subtotal_delta(&mut node, size_delta, file_delta, dir_delta);
                assert(node == shifted(before_node, size_delta as int, file_delta as int, dir_delta as int));
                let ghost entry = (k, node);
                flat.insert(pos, (k, node));
                proof {
                    assert(entry == (f0[pos as int].0, shifted(f0[pos as int].1, ds, df, dd)));
                    assert(flat@ =~= f0.update(pos as int, entry));
                    assert(first_entry(f0, key@, pos as int));
                    let j = choose|j: int| #[trigger] first_entry(f0, key@, j);
                    assert(j == pos as int);
                    assert(flat@ =~= shift_first(f0, key@, ds, df, dd));
                }
            },
            None => {
                proof {
                    assert(!exists|j: int| #[trigger] first_entry(f0, key@, j));
                }
            },
        }
        if fuel == 0 {
            break;
        }
        fuel = fuel - 1;
        current = parent_path(parent.as_str());
    }
}

proof fn lemma_table_has_counts(flat: Seq<(String, DirectoryNode)>, k: Seq<char>)
    requires
        table_keyed(flat),
        table_has(flat, k),
    ensures
        table_key_weight(flat, k) >= 1,
{
    let j = choose|j: int| 0 <= j < flat.len() && #[trigger] flat[j].0@ == k;
    assert(path_key(flat[j].1.path@) == k);
    let ns = entry_nodes(flat);
    assert(ns[j] == flat[j].1);
    crate::tree::lemma_sum_remove(ns, j, |n: DirectoryNode| key_weight(n, k));
    assert forall|n: DirectoryNode| #[trigger] key_weight(n, k) >= 0 by {}
    crate::tree::lemma_sum_nonneg(ns.remove(j), |n: DirectoryNode| key_weight(n, k));
}

/// The merge used when the keyed merge cannot place a change: flatten the
/// old tree, shift ancestor totals by each change, drop the replaced and
/// deleted subtrees, add the rescanned subtrees and rebuild. Every
/// directory of a rescanned subtree is in the result.
fn merge_scan_results_flat(
    old_tree: Vec<DirectoryNode>,
    changed_dirs: Vec<DirectoryNode>,
    deleted_paths: Vec<String>,
    root_path: &str,
) -> (r: Vec<DirectoryNode>)
    ensures
        sorted_by_size(r@),
        tree_sorted(r@),
        forall|k: int| 0 <= k < preorder_paths(changed_dirs@).len() ==> key_count(
            r@,
            path_key(#[trigger] preorder_paths(changed_dirs@)[k]),
        ) >= 1,
{
    let root_key = normalized_path_key_str(root_path);
    let mut flat: Vec<(String, DirectoryNode)> = Vec::new();
    flatten_tree(old_tree, &mut flat);
    let mut prefixes_raw: Vec<String> = Vec::new();

    let mut d: usize = 0;
    while d < deleted_paths.len()
        invariant
            table_keyed(flat@),
        decreases deleted_paths.len() - d,
    {
        let deleted_key = normalized_path_key_str(deleted_paths[d].as_str());
        match flat_find(&flat, deleted_key.as_str()) {
            Some(pos) => {
                let ds: i128 = flat[pos].1.size as i128;
                let df: i128 = flat[pos].1.file_count as i128;
                let dd: i128 = flat[pos].1.dir_count as i128;
                let ghost f0 = flat@;
                apply_delta_to_ancestors(&mut flat, deleted_paths[d].as_str(), root_key.as_str(), 0 - ds, 0 - df, 0 - dd);
                proof {
                    lemma_shift_chain_keyed(
                        f0,
                        parent_path_spec(deleted_paths@[d as int]@),
                        root_key@,
                        deleted_paths@[d as int]@.len(),
                        (0 - ds) as int,
                        (0 - df) as int,
                        (0 - dd) as int,
                    );
                }
            },
            None => {},
        }
        prefixes_raw.push(crate::text::owned(deleted_paths[d].as_str()));
        d = d + 1;
    }

    let ghost cd = changed_dirs@;
    let mut to_flatten: Vec<DirectoryNode> = Vec::new();
    let mut changed = changed_dirs;
    let mut rev: Vec<DirectoryNode> = Vec::new();
    while changed.len() > 0
        invariant
            changed@ == cd.take(changed@.len() as int),
            rev@.len() + changed@.len() == cd.len(),
            forall|j: int| 0 <= j < rev@.len() ==> #[trigger] rev@[j] == cd[cd.len() - 1 - j],
        decreases changed.len(),
    {
        let ghost c0 = changed@;
        let x = changed.pop().unwrap();
        proof {
            assert(x == cd[c0.len() - 1]);
            assert(changed@ =~= cd.take(changed@.len() as int));
        }
        rev.push(x);
    }
    while rev.len() > 0
        invariant
            table_keyed(flat@),
            to_flatten@ == cd.take(to_flatten@.len() as int),
            rev@.len() + to_flatten@.len() == cd.len(),
            forall|j: int| 0 <= j < rev@.len() ==> #[trigger] rev@[j] == cd[cd.len() - 1 - j],
        decreases rev.len(),
    {
        let ghost r0 = rev@;
        let changed_dir = rev.pop().unwrap();
        proof {
            assert(changed_dir == r0[r0.len() - 1]);
            assert(changed_dir == cd[to_flatten@.len() as int]);
        }
        let key = normalized_path_key_str(changed_dir.path.as_str());
        let (ps, pf, pd): (i128, i128, i128) = match flat_find(&flat, key.as_str()) {
            Some(pos) => (flat[pos].1.size as i128, flat[pos].1.file_count as i128, flat[pos].1.dir_count as i128),
            None => (0, 0, 0),
        };
        let cs: i128 = changed_dir.size as i128;
        let cf: i128 = changed_dir.file_count as i128;
        let cdd: i128 = changed_dir.dir_count as i128;
        let ghost f0 = flat@;
        apply_delta_to_ancestors(&mut flat, changed_dir.path.as_str(), root_key.as_str(), cs - ps, cf - pf, cdd - pd);
        proof {
            lemma_shift_chain_keyed(
                f0,
                parent_path_spec(changed_dir.path@),
                root_key@,
                changed_dir.path@.len(),
                (cs - ps) as int,
                (cf - pf) as int,
                (cdd - pd) as int,
            );
        }
        prefixes_raw.push(crate::text::owned(changed_dir.path.as_str()));
        let ghost t0 = to_flatten@;
        to_flatten.push(changed_dir);
        proof {
            assert(to_flatten@ =~= cd.take(to_flatten@.len() as int));
        }
    }
    assert(to_flatten@ =~= cd);

    if prefixes_raw.len() > 0 {
        let mut exact: Vec<String> = Vec::new();
        let mut prefixes: Vec<String> = Vec::new();
        let mut q: usize = 0;
        while q < prefixes_raw.len()
            decreases prefixes_raw.len() - q,
        {
            let k = normalized_path_key_str(prefixes_raw[q].as_str());
            let mut pv = chars_of(k.as_str());
            if pv.len() == 0 || pv[pv.len() - 1] != '\\' {
                pv.push('\\');
            }
            prefixes.push(string_from_chars(pv.as_slice()));
            exact.push(k);
            q = q + 1;
        }
        let mut kept: Vec<(String, DirectoryNode)> = Vec::new();
        let mut src = flat;
        let mut back: Vec<(String, DirectoryNode)> = Vec::new();
        while src.len() > 0
            invariant
                table_keyed(src@),
                table_keyed(back@),
            decreases src.len(),
        {
            let ghost s0 = src@;
            let ghost b0 = back@;
            let e = src.pop().unwrap();
            proof {
                assert(e == s0[s0.len() - 1]);
                assert forall|j: int| 0 <= j < src@.len() implies path_key(#[trigger] src@[j].1.path@) == src@[j].0@ by {
                    assert(src@[j] == s0[j]);
                }
            }
            back.push(e);
            proof {
                assert forall|j: int| 0 <= j < back@.len() implies path_key(#[trigger] back@[j].1.path@) == back@[j].0@ by {
                    if j < b0.len() {
                        assert(back@[j] == b0[j]);
                    }
                }
            }
        }
        while back.len() > 0
            invariant
                table_keyed(back@),
                table_keyed(kept@),
            decreases back.len(),
        {
            let ghost b0 = back@;
            let ghost k0 = kept@;
            let entry = back.pop().unwrap();
            proof {
                assert(entry == b0[b0.len() - 1]);
                assert forall|j: int| 0 <= j < back@.len() implies path_key(#[trigger] back@[j].1.path@) == back@[j].0@ by {
                    assert(back@[j] == b0[j]);
                }
            }
            if !covered_by(entry.0.as_str(), &exact, &prefixes) {
                kept.push(entry);
                proof {
                    assert forall|j: int| 0 <= j < kept@.len() implies path_key(#[trigger] kept@[j].1.path@) == kept@[j].0@ by {
                        if j < k0.len() {
                            assert(kept@[j] == k0[j]);
                        }
                    }
                }
            }
        }
        flat = kept;
    }

    let ghost pre = preorder_paths(cd);
    if to_flatten.len() > 0 {
        flatten_tree(to_flatten, &mut flat);
    } else {
        assert(cd.len() == 0);
        assert(pre.len() == 0);
    }
    let ghost ft = flat@;
    let r = rebuild_tree(flat, root_path);
    proof {
        assert forall|k: int| 0 <= k < pre.len() implies key_count(r@, path_key(#[trigger] pre[k])) >= 1 by {
            lemma_table_has_counts(ft, path_key(pre[k]));
        }
    }
    r
}

// ---------------------------------------------------------------------------
// Public merge entry points
// ---------------------------------------------------------------------------

/// A signal that a long merge polls to stop early.
pub trait CancellationLike {
    fn is_cancelled(&self) -> bool;
}

/// Why an incremental scan stopped.
#[derive(Debug, Clone, Copy, PartialEq, Eq, Structural)]
pub enum IncrementalScanError {
    Cancelled,
}

impl IncrementalScanError {
    /// The message shown for the error.
    pub fn message(&self) -> (r: String)
        ensures
            r@ == "增量扫描已取消"@,
    {
        match self {
            IncrementalScanError::Cancelled => crate::text::owned("增量扫描已取消"),
        }
    }
}

/// Own (direct-file) totals given by the caller for some directories,
/// keyed by normalised path; they win over anything the merge derives.
pub struct OwnOverrides {
    table: StringHashMap<(u64, usize)>,
}

impl View for OwnOverrides {
    type V = Map<Seq<char>, (u64, usize)>;

    closed spec fn view(&self) -> Map<Seq<char>, (u64, usize)> {
        self.table@
    }
}

impl OwnOverrides {
    pub fn new() -> (r: OwnOverrides)
        ensures
            r@ == Map::<Seq<char>, (u64, usize)>::empty(),
    {
        OwnOverrides { table: StringHashMap::new() }
    }

    /// Records the own totals of the directory keyed `key`.
    pub fn insert(&mut self, key: String, own: (u64, usize))
        ensures
            final(self)@ == old(self)@.insert(key@, own),
    {
        self.table.insert(key, own);
    }
}

/// How many nodes the merge recomputes between two polls of the signal.
pub const MERGE_CANCEL_CHECK_STRIDE: usize = 1024;

/// The keys of the first `n` rescanned directories, as a table.
pub open spec fn changed_top_keys(s: Seq<DirectoryNode>, n: int) -> Map<Seq<char>, ()>
    decreases n,
{
    if n <= 0 || n > s.len() {
        Map::empty()
    } else {
        changed_top_keys(s, n - 1).insert(path_key(s[n - 1].path@), ())
    }
}

/// The own parts the rescans report: every node of the rescanned subtrees
/// (see [`record_forest`]), a descendant that is itself a rescanned
/// directory left to its own entry.
pub open spec fn rescan_own(changed: Seq<DirectoryNode>) -> Map<Seq<char>, (u64, usize)> {
    record_forest(changed, Map::empty(), changed_top_keys(changed, changed.len() as int), true)
}

/// Recording into a table is overlaying the table with what recording into
/// an empty one gives.
proof fn lemma_record_forest_overlay(
    nodes: Seq<DirectoryNode>,
    m: Map<Seq<char>, (u64, usize)>,
    top_keys: Map<Seq<char>, ()>,
    is_top: bool,
)
    ensures
        record_forest(nodes, m, top_keys, is_top) == m.union_prefer_right(
            record_forest(nodes, Map::empty(), top_keys, is_top),
        ),
    decreases nodes, 1int, 0int,
{
    lemma_record_upto_overlay(nodes, m, top_keys, is_top, nodes.len() as int);
}

proof fn lemma_record_upto_overlay(
    nodes: Seq<DirectoryNode>,
    m: Map<Seq<char>, (u64, usize)>,
    top_keys: Map<Seq<char>, ()>,
    is_top: bool,
    i: int,
)
    ensures
        record_upto(nodes, m, top_keys, is_top, i) == m.union_prefer_right(
            record_upto(nodes, Map::empty(), top_keys, is_top, i),
        ),
    decreases nodes, 0int, i,
{
    if i <= 0 || i > nodes.len() {
        assert(m.union_prefer_right(Map::<Seq<char>, (u64, usize)>::empty()) =~= m);
    } else {
        lemma_record_upto_overlay(nodes, m, top_keys, is_top, i - 1);
        let n = nodes[i - 1];
        let k = path_key(n.path@);
        if records_own(k, top_keys, is_top) {
            assert(decreases_to!(nodes => nodes[i - 1]));
            assert(decreases_to!(nodes[i - 1] => nodes[i - 1].children));
            assert(decreases_to!(nodes[i - 1].children => nodes[i - 1].children@));
            let e = record_upto(nodes, Map::empty(), top_keys, is_top, i - 1);
            let m1 = record_upto(nodes, m, top_keys, is_top, i - 1);
            lemma_record_forest_overlay(n.children@, m1.insert(k, own_part(n)), top_keys, false);
            lemma_record_forest_overlay(n.children@, e.insert(k, own_part(n)), top_keys, false);
            let c = record_forest(n.children@, Map::empty(), top_keys, false);
            assert(m1 == m.union_prefer_right(e));
            assert(m1.insert(k, own_part(n)).union_prefer_right(c) =~= m.union_prefer_right(
                e.insert(k, own_part(n)).union_prefer_right(c),
            ));
        }
    }
}

/// A merged forest: siblings ordered by size at every level, and every
/// directory at every depth below a top-level node other than the scan
/// root's has a directory count of one plus its children's and a size and
/// file count of its own part plus its children's, the own part taken from
/// `ov` first, else from `own` (at least its children's where neither
/// holds its key).
pub open spec fn merged_tree_ok(
    t: Seq<DirectoryNode>,
    root_key: Seq<char>,
    ov: Map<Seq<char>, (u64, usize)>,
    own: Map<Seq<char>, (u64, usize)>,
) -> bool {
    &&& sorted_by_size(t)
    &&& tree_sorted(t)
    &&& forest_ok_except(t, root_key, ov, own)
}

/// The key lies at or below one of the deleted paths.
pub open spec fn deleted_below(k: Seq<char>, deleted: Seq<String>) -> bool {
    exists|q: int| 0 <= q < deleted.len() && key_below_or_at(k, path_key(#[trigger] deleted[q]@))
}

/// No directory at or below a deleted path is left in the forest, unless a
/// rescanned subtree holds it.
pub open spec fn deletions_honoured(t: Seq<DirectoryNode>, changed: Seq<DirectoryNode>, deleted: Seq<String>) -> bool {
    forall|k: Seq<char>|
        #[trigger] key_count(t, k) >= 1 && deleted_below(k, deleted) ==> crate::forest_keys::keys_of(changed).contains(k)
}

/// Every directory of every rescanned subtree has a node in the forest.
pub open spec fn keeps_rescanned(t: Seq<DirectoryNode>, changed: Seq<DirectoryNode>) -> bool {
    forall|k: int|
        0 <= k < preorder_paths(changed).len() ==> key_count(t, path_key(#[trigger] preorder_paths(changed)[k]))
            >= 1
}

proof fn lemma_preorder_nonempty(s: Seq<DirectoryNode>)
    requires
        s.len() > 0,
    ensures
        preorder_paths(s).len() > 0,
{
    assert(preorder_paths(s) == preorder_paths(s.drop_last()) + seq![s.last().path@] + preorder_paths(
        s.last().children@,
    ));
}

/// One top-level node keeps [`totals_ok`] with its subtree, unless it is
/// the scan root's own node.
pub open spec fn node_ok_unless_root(
    n: DirectoryNode,
    root_key: Seq<char>,
    ov: Map<Seq<char>, (u64, usize)>,
    cached: Map<Seq<char>, (u64, usize)>,
) -> bool {
    path_key(n.path@) != root_key ==> tree_ok(n.children@, ov, cached) && totals_ok(n, ov, cached)
}

/// [`recalc_subtotals_authoritative`] that counts the nodes it visits and
/// polls the signal every [`MERGE_CANCEL_CHECK_STRIDE`] of them; once
/// cancelled it stops where it is.
fn recalc_subtotals_authoritative_cancellable<C: CancellationLike>(
    node: &mut DirectoryNode,
    own_overrides: &StringHashMap<(u64, usize)>,
    cached_own: &StringHashMap<(u64, usize)>,
    counter: &mut usize,
    cancellation: Option<&C>,
    cancelled: &mut bool,
)
    ensures
        !*final(cancelled) ==> tree_ok(final(node).children@, own_overrides@, cached_own@)
            && totals_ok(*final(node), own_overrides@, cached_own@),
        *old(cancelled) ==> *final(cancelled),
        cancellation is None ==> *final(cancelled) == *old(cancelled),
        final(node).path == old(node).path,
        !*final(cancelled) ==> same_shape(*old(node), *final(node)),
        !*final(cancelled) ==> same_links(*old(node), *final(node)),
    decreases *old(node),
{
    if *cancelled {
        return;
    }
    let ghost orig = node.children@;
    let mut i: usize = 0;
    while i < node.children.len()
        invariant
            i <= node.children.len(),
            node.children.len() == orig.len(),
            orig == old(node).children@,
            forall|j: int| i <= j < orig.len() ==> node.children@[j] == orig[j],
            forall|j: int| 0 <= j < i ==> #[trigger] same_shape(orig[j], node.children@[j]),
            forall|j: int| 0 <= j < i ==> #[trigger] same_links(orig[j], node.children@[j]),
            node.path == old(node).path,
            !*cancelled,
        decreases node.children.len() - i,
    {
        let ghost before = node.children@;
        assert(decreases_to!(*old(node) => orig[i as int]));
        recalc_subtotals_authoritative_cancellable(
            &mut node.children[i],
            own_overrides,
            cached_own,
            counter,
            cancellation,
            cancelled,
        );
        if *cancelled {
            return;
        }
        assert forall|j: int| 0 <= j < i + 1 implies #[trigger] same_shape(orig[j], node.children@[j]) by {
            if j < i {
                assert(node.children@[j] == before[j]);
            }
        }
        assert forall|j: int| 0 <= j < i + 1 implies #[trigger] same_links(orig[j], node.children@[j]) by {
            if j < i {
                assert(node.children@[j] == before[j]);
            }
        }
        i = i + 1;
    }
    proof {
        lemma_same_shape_sums(orig, node.children@);
        crate::tree::lemma_links_reordered(orig, node.children@, node.children@);
    }
    let ghost mid = *node;
    assert(same_shape(*old(node), mid));
    assert(same_links(*old(node), mid));
    if *counter < usize::MAX {
        *counter = *counter + 1;
    }
    if *counter % MERGE_CANCEL_CHECK_STRIDE == 0 {
        match cancellation {
            Some(token) => {
                if token.is_cancelled() {
                    *cancelled = true;
                    return;
                }
            },
            None => {},
        }
    }
    recalc_subtotals_authoritative(node, own_overrides, cached_own);
    assert forall|k: Seq<char>| #[trigger] key_count(old(node).children@, k) == key_count(node.children@, k) by {
        assert(key_count(old(node).children@, k) == key_count(mid.children@, k));
    }
    assert forall|k: Seq<char>| #[trigger] top_count(old(node).children@, k) == top_count(node.children@, k) by {
        assert(top_count(old(node).children@, k) == top_count(mid.children@, k));
    }
    assert forall|pk: Seq<char>, ck: Seq<char>| #[trigger] link_count(old(node).children@, pk, ck) == link_count(
        node.children@,
        pk,
        ck,
    ) by {
        assert(link_count(old(node).children@, pk, ck) == link_count(mid.children@, pk, ck));
    }
}

/// The merge with own totals and an optional cancellation signal. On
/// cancellation it hands back the partly recomputed forest as the error.
pub fn merge_scan_results_with_own_cancellable<C: CancellationLike>(
    old_tree: Vec<DirectoryNode>,
    changed_dirs: Vec<DirectoryNode>,
    own_overrides: &OwnOverrides,
    deleted_paths: Vec<String>,
    root_path: &str,
    cancellation: Option<&C>,
) -> (r: Result<Vec<DirectoryNode>, Vec<DirectoryNode>>)
    ensures
        cancellation is None ==> r is Ok,
        r matches Ok(t) ==> merged_tree_ok(t@, path_key(root_path@), own_overrides@, merge_own_table(old_tree@, changed_dirs@)),
        deleted_paths@.len() == 0 && changed_dirs@.len() == 0 ==> (r matches Ok(t) ==> t@.len() == old_tree@.len()),
        changed_dirs@.len() > 0 ==> (r matches Ok(t) ==> t@.len() > 0),
        r matches Ok(t) ==> keeps_rescanned(t@, changed_dirs@),
        r matches Ok(t) ==> crate::placement::rescans_placed(t@, path_key(root_path@), changed_dirs@),
        r matches Ok(t) ==> deletions_honoured(t@, changed_dirs@, deleted_paths@),
{
    let ghost nothing = deleted_paths@.len() == 0 && changed_dirs@.len() == 0;
    let ghost ch = changed_dirs@;
    let ghost len0 = old_tree@.len();
    let ghost orig = old_tree@;
    let mut old_tree = old_tree;
    sanitize_tree_subtotals(&mut old_tree);

    let mut cached_own: StringHashMap<(u64, usize)> = StringHashMap::new();
    collect_cached_own(&old_tree, &mut cached_own);
    proof {
        lemma_record_settled(orig, old_tree@, Map::empty(), orig.len() as int);
        assert(cached_own@ == cached_own_table(orig));
    }

    let mut top_level_keys: StringHashMap<()> = StringHashMap::new();
    let mut c: usize = 0;
    while c < changed_dirs.len()
        invariant
            c <= changed_dirs.len(),
            top_level_keys@ == changed_top_keys(changed_dirs@, c as int),
        decreases changed_dirs.len() - c,
    {
        top_level_keys.insert(normalized_path_key_str(changed_dirs[c].path.as_str()), ());
        c = c + 1;
    }
    let ghost base = cached_own@;
    ingest_changed_own(&changed_dirs, &mut cached_own, &top_level_keys, true);
    let ghost reported = rescan_own(changed_dirs@);
    proof {
        lemma_record_forest_overlay(changed_dirs@, base, top_level_keys@, true);
        assert(cached_own@ == base.union_prefer_right(reported));
    }

    let rescans = crate::forest_keys::copy_forest(&changed_dirs);
    let placing = crate::forest_keys::copy_forest(&changed_dirs);
    let mut keep: StringHashMap<()> = StringHashMap::new();
    crate::forest_keys::collect_keys(&rescans, &mut keep);
    let mut dkeys: Vec<String> = Vec::new();
    let mut q: usize = 0;
    while q < deleted_paths.len()
        invariant
            q <= deleted_paths.len(),
            dkeys@.len() == q,
            forall|j: int| 0 <= j < q ==> #[trigger] dkeys@[j]@ == path_key(deleted_paths@[j]@),
        decreases deleted_paths.len() - q,
    {
        dkeys.push(normalized_path_key_str(deleted_paths[q].as_str()));
        q = q + 1;
    }
    let ghost dl = deleted_paths@;
    proof {
        assert forall|k: Seq<char>| #[trigger] keep@.dom().contains(k) <==> crate::forest_keys::keys_of(ch).contains(k) by {
            crate::forest_keys::lemma_keys_of_preorder(rescans@, k);
            crate::forest_keys::lemma_keys_of_preorder(ch, k);
        }
    }
    let keyed = merge_scan_results_keyed(old_tree, changed_dirs, deleted_paths, root_path);
    let mut tree = match keyed {
        Ok(t) => t,
        Err(fallback) => merge_scan_results_flat(
            fallback.old_tree,
            fallback.changed_dirs,
            fallback.deleted_paths,
            root_path,
        ),
    };
    assert(nothing ==> tree@.len() == len0);
    // every rescanned directory must have found its place; if one did not,
    // the rescans are folded in again by the flat merge, which places all
    let mut present: StringHashMap<()> = StringHashMap::new();
    crate::forest_keys::collect_keys(&tree, &mut present);
    if crate::forest_keys::all_keys_in(&rescans, &present) {
        proof {
            assert forall|k: int| 0 <= k < preorder_paths(ch).len() implies key_count(
                tree@,
                path_key(#[trigger] preorder_paths(ch)[k]),
            ) >= 1 by {
                assert(preorder_paths(rescans@) == preorder_paths(ch));
                assert(present@.contains_key(path_key(preorder_paths(rescans@)[k])));
                crate::forest_keys::lemma_keys_of_count(tree@, path_key(preorder_paths(ch)[k]));
            }
        }
    } else {
        proof {
            if nothing {
                assert(preorder_paths(ch) =~= Seq::<Seq<char>>::empty());
                assert(preorder_paths(rescans@) == preorder_paths(ch));
            }
        }
        tree = merge_scan_results_flat(tree, rescans, Vec::new(), root_path);
        proof {
            assert(preorder_paths(rescans@) == preorder_paths(ch));
        }
    }
    assert(keeps_rescanned(tree@, ch));
    proof {
        if ch.len() > 0 {
            lemma_preorder_nonempty(ch);
            assert(key_count(tree@, path_key(preorder_paths(ch)[0])) >= 1);
        }
    }
    assert(ch.len() > 0 ==> tree@.len() > 0);
    // nothing at or below a deleted path stays, unless a rescan holds it
    if dkeys.len() > 0 {
        let ghost before_prune = tree@;
        tree = crate::forest_keys::prune_keys(tree, &dkeys, &keep);
        proof {
            assert forall|k: int| 0 <= k < preorder_paths(ch).len() implies key_count(
                tree@,
                path_key(#[trigger] preorder_paths(ch)[k]),
            ) >= 1 by {
                let kk = path_key(preorder_paths(ch)[k]);
                crate::forest_keys::lemma_count_keys_of(before_prune, kk);
                crate::forest_keys::lemma_keys_of_preorder(ch, kk);
                assert(keep@.dom().contains(kk));
                assert(crate::forest_keys::keys_of(tree@).contains(kk));
                crate::forest_keys::lemma_keys_of_count(tree@, kk);
            }
            if ch.len() > 0 {
                lemma_preorder_nonempty(ch);
                assert(key_count(tree@, path_key(preorder_paths(ch)[0])) >= 1);
            }
        }
    }
    proof {
        assert forall|k: Seq<char>|
            crate::forest_keys::keys_of(tree@).contains(k) && deleted_below(k, dl) implies crate::forest_keys::keys_of(
            ch,
        ).contains(k) by {
            let qq = choose|qq: int| 0 <= qq < dl.len() && key_below_or_at(k, path_key(#[trigger] dl[qq]@));
            assert(dkeys@[qq]@ == path_key(dl[qq]@));
            assert(crate::forest_keys::below_some(k, dkeys@));
        }
    }
    // every rescanned directory must stand below its parent's node
    let root_key = normalized_path_key_str(root_path);
    let ghost unplaced = tree@;
    crate::placement::place_rescans(&mut tree, &placing, root_key.as_str());
    proof {
        assert(preorder_paths(placing@) == preorder_paths(ch));
        assert forall|k: int| 0 <= k < preorder_paths(ch).len() implies key_count(
            tree@,
            path_key(#[trigger] preorder_paths(ch)[k]),
        ) >= 1 by {
            assert(key_count(unplaced, path_key(preorder_paths(ch)[k])) >= 1);
        }
        assert forall|k: Seq<char>|
            crate::forest_keys::keys_of(tree@).contains(k) && deleted_below(k, dl) implies crate::forest_keys::keys_of(
            ch,
        ).contains(k) by {
            crate::forest_keys::lemma_keys_of_count(tree@, k);
            if key_count(tree@, k) > key_count(unplaced, k) {
                crate::forest_keys::lemma_keys_of_preorder(placing@, k);
                crate::forest_keys::lemma_keys_of_preorder(ch, k);
            } else {
                crate::forest_keys::lemma_count_keys_of(unplaced, k);
            }
        }
    }
    assert(keeps_rescanned(tree@, ch));
    assert(ch.len() > 0 ==> tree@.len() > 0);
    assert(nothing ==> tree@.len() == len0);
    let ghost tlen = tree@.len();
    let ghost pre = tree@;
    let ghost ov = own_overrides.table@;
    let ghost ca = cached_own@;
    let mut counter: usize = 0;
    let mut cancelled = false;
    let mut i: usize = 0;
    while i < tree.len()
        invariant
            i <= tree.len(),
            tree@.len() == tlen,
            !cancelled,
            ov == own_overrides.table@,
            ca == cached_own@,
            root_key@ == path_key(root_path@),
            forall|j: int| 0 <= j < i ==> #[trigger] node_ok_unless_root(tree@[j], root_key@, ov, ca),
            pre.len() == tlen,
            forall|j: int| 0 <= j < i ==> #[trigger] same_shape(pre[j], tree@[j]),
            forall|j: int| 0 <= j < i ==> #[trigger] same_links(pre[j], tree@[j]),
            forall|j: int| i <= j < tlen ==> tree@[j] == pre[j],
        decreases tree.len() - i,
    {
        let key = normalized_path_key_str(tree[i].path.as_str());
        let ghost before = tree@;
        if !str_eq(key.as_str(), root_key.as_str()) {
            recalc_subtotals_authoritative_cancellable(
                &mut tree[i],
                &own_overrides.table,
                &cached_own,
                &mut counter,
                cancellation,
                &mut cancelled,
            );
            if cancelled {
                return Err(tree);
            }
        }
        assert(node_ok_unless_root(tree@[i as int], root_key@, ov, ca));
        assert forall|j: int| 0 <= j < i implies #[trigger] node_ok_unless_root(tree@[j], root_key@, ov, ca) by {
            assert(tree@[j] == before[j]);
            assert(node_ok_unless_root(before[j], root_key@, ov, ca));
        }
        assert(same_shape(pre[i as int], tree@[i as int]));
        assert(same_links(pre[i as int], tree@[i as int]));
        assert forall|j: int| 0 <= j < i + 1 implies #[trigger] same_shape(pre[j], tree@[j]) by {
            if j < i {
                assert(tree@[j] == before[j]);
            }
        }
        assert forall|j: int| 0 <= j < i + 1 implies #[trigger] same_links(pre[j], tree@[j]) by {
            if j < i {
                assert(tree@[j] == before[j]);
            }
        }
        i = i + 1;
    }
    proof {
        lemma_same_shape_sums(pre, tree@);
        crate::tree::lemma_links_reordered(pre, tree@, tree@);
        crate::placement::lemma_placed_transfer(pre, tree@, root_key@, placing@);
        assert forall|k: int| 0 <= k < preorder_paths(ch).len() implies key_count(
            tree@,
            path_key(#[trigger] preorder_paths(ch)[k]),
        ) >= 1 by {
            assert(key_count(pre, path_key(preorder_paths(ch)[k])) >= 1);
        }
    }
    let ghost recalced = tree@;
    assert forall|j: int|
        0 <= j < tree@.len() && path_key(tree@[j].path@) != root_key@ implies (#[trigger] tree_ok(
        tree@[j].children@,
        ov,
        ca,
    ) && totals_ok(tree@[j], ov, ca)) by {
        assert(node_ok_unless_root(tree@[j], root_key@, ov, ca));
    }
    assert(forest_ok_except(tree@, root_key@, ov, ca));
    sort_directory_tree(&mut tree);
    proof {
        assert(forest_ok_except(tree@, root_key@, ov, ca));
        assert(ca == merge_own_table(orig, ch));
        crate::placement::lemma_placed_transfer(recalced, tree@, root_key@, placing@);
        crate::placement::lemma_placed_same_paths(tree@, root_key@, placing@, ch);
        assert forall|k: int| 0 <= k < preorder_paths(ch).len() implies key_count(
            tree@,
            path_key(#[trigger] preorder_paths(ch)[k]),
        ) >= 1 by {
            assert(key_count(recalced, path_key(preorder_paths(ch)[k])) >= 1);
        }
        assert forall|k: Seq<char>| #[trigger] key_count(tree@, k) >= 1 && deleted_below(k, dl) implies crate::forest_keys::keys_of(
            ch,
        ).contains(k) by {
            assert(key_count(recalced, k) >= 1);
            assert(key_count(pre, k) >= 1);
            crate::forest_keys::lemma_count_keys_of(pre, k);
        }
    }
    Ok(tree)
}

/// Never signals.
struct NoCancel;

impl CancellationLike for NoCancel {
    fn is_cancelled(&self) -> (r: bool)
        ensures
            !r,
    {
        false
    }
}

/// Folds rescanned subtrees and deletions into the cached forest, then
/// recomputes every directory's totals as its own part plus its children,
/// taking the own part from `own_overrides` first, else from the rescans,
/// else from the cached tree (see [`merge_own_table`]). Every directory of
/// every rescanned subtree ends up in the forest (the flat merge folds the
/// rescans in again should the keyed placement have missed one); every
/// rescanned directory stands at the top level when its parent is the scan
/// root, else as a child of a node of its parent's key whenever the forest
/// holds that key (a copy is attached where neither fold put it); and
/// nothing at or below a deleted path stays unless a rescan holds it.
pub fn merge_scan_results_with_own(
    old_tree: Vec<DirectoryNode>,
    changed_dirs: Vec<DirectoryNode>,
    own_overrides: &OwnOverrides,
    deleted_paths: Vec<String>,
    root_path: &str,
) -> (r: Vec<DirectoryNode>)
    ensures
        merged_tree_ok(r@, path_key(root_path@), own_overrides@, merge_own_table(old_tree@, changed_dirs@)),
        deleted_paths@.len() == 0 && changed_dirs@.len() == 0 ==> r@.len() == old_tree@.len(),
        crate::placement::rescans_placed(r@, path_key(root_path@), changed_dirs@),
        changed_dirs@.len() > 0 ==> r@.len() > 0,
        keeps_rescanned(r@, changed_dirs@),
        deletions_honoured(r@, changed_dirs@, deleted_paths@),
{
    let none: Option<&NoCancel> = None;
    match merge_scan_results_with_own_cancellable(old_tree, changed_dirs, own_overrides, deleted_paths, root_path, none) {
        Ok(t) => t,
        Err(partial) => partial,
    }
}

/// [`merge_scan_results_with_own`] with no own totals given.
pub fn merge_scan_results(
    old_tree: Vec<DirectoryNode>,
    changed_dirs: Vec<DirectoryNode>,
    deleted_paths: Vec<String>,
    root_path: &str,
) -> (r: Vec<DirectoryNode>)
    ensures
        merged_tree_ok(r@, path_key(root_path@), Map::empty(), merge_own_table(old_tree@, changed_dirs@)),
        deleted_paths@.len() == 0 && changed_dirs@.len() == 0 ==> r@.len() == old_tree@.len(),
        crate::placement::rescans_placed(r@, path_key(root_path@), changed_dirs@),
        changed_dirs@.len() > 0 ==> r@.len() > 0,
        keeps_rescanned(r@, changed_dirs@),
        deletions_honoured(r@, changed_dirs@, deleted_paths@),
{
    let overrides = OwnOverrides::new();
    merge_scan_results_with_own(old_tree, changed_dirs, &overrides, deleted_paths, root_path)
}


// ---------------------------------------------------------------------------
// Totals of a merged forest and the scan root's own files
// ---------------------------------------------------------------------------

/// Total size and file count of a forest: each node counts for the larger of
/// its own total and its children's (saturating at the integer bounds).
pub open spec fn forest_size_total(s: Seq<DirectoryNode>) -> int
    decreases s,
{
    if s.len() == 0 {
        0
    } else {
        proof {
            assert(decreases_to!(s => s.last()));
        }
        let child = forest_size_total(s.last().children@);
        let here = if s.last().size >= child { s.last().size as int } else { child };
        sat_u64(forest_size_total(s.drop_last()) + here)
    }
}

pub open spec fn forest_file_total(s: Seq<DirectoryNode>) -> int
    decreases s,
{
    if s.len() == 0 {
        0
    } else {
        proof {
            assert(decreases_to!(s => s.last()));
        }
        let child = forest_file_total(s.last().children@);
        let here = if s.last().file_count >= child { s.last().file_count as int } else { child };
        sat_usize(forest_file_total(s.drop_last()) + here)
    }
}

proof fn lemma_forest_totals_bounded(s: Seq<DirectoryNode>)
    ensures
        0 <= forest_size_total(s) <= u64::MAX,
        0 <= forest_file_total(s) <= usize::MAX,
    decreases s,
{
    if s.len() > 0 {
        assert(decreases_to!(s => s.last()));
        lemma_forest_totals_bounded(s.drop_last());
        lemma_forest_totals_bounded(s.last().children@);
    }
}

/// Total size and file count of a forest, each node counted as its own files
/// plus its children's.
pub fn sum_tree(dirs: &Vec<DirectoryNode>) -> (r: (u64, usize))
    ensures
        r.0 == forest_size_total(dirs@),
        r.1 == forest_file_total(dirs@),
    decreases dirs@,
{
    let mut size_acc: u64 = 0;
    let mut file_acc: usize = 0;
    let mut i: usize = 0;
    while i < dirs.len()
        invariant
            i <= dirs.len(),
            size_acc == forest_size_total(dirs@.take(i as int)),
            file_acc == forest_file_total(dirs@.take(i as int)),
        decreases dirs.len() - i,
    {
        let node = &dirs[i];
        assert(decreases_to!(dirs@ => dirs@[i as int]));
        assert(decreases_to!(dirs@[i as int] => dirs@[i as int].children@));
        let (child_size, child_files) = sum_tree(&node.children);
        let own_size = node.size.saturating_sub(child_size);
        let own_files = node.file_count.saturating_sub(child_files);
        size_acc = size_acc.saturating_add(child_size + own_size);
        file_acc = file_acc.saturating_add(child_files + own_files);
        proof {
            let t = dirs@.take(i as int + 1);
            assert(t.drop_last() =~= dirs@.take(i as int));
            assert(t.last() == dirs@[i as int]);
        }
        i = i + 1;
    }
    assert(dirs@.take(dirs.len() as int) =~= dirs@);
    (size_acc, file_acc)
}

/// Number of directories in a forest, the scan root's own node and what
/// lies below it not counted (saturating).
pub open spec fn forest_dir_total(s: Seq<DirectoryNode>, root_key: Seq<char>) -> int
    decreases s,
{
    if s.len() == 0 {
        0
    } else {
        proof {
            assert(decreases_to!(s => s.last()));
        }
        let here = if path_key(s.last().path@) == root_key {
            0
        } else {
            sat_usize(1 + forest_dir_total(s.last().children@, root_key))
        };
        sat_usize(forest_dir_total(s.drop_last(), root_key) + here)
    }
}

proof fn lemma_forest_dir_total_bounded(s: Seq<DirectoryNode>, rk: Seq<char>)
    ensures
        0 <= forest_dir_total(s, rk) <= usize::MAX,
    decreases s,
{
    if s.len() > 0 {
        assert(decreases_to!(s => s.last()));
        lemma_forest_dir_total_bounded(s.drop_last(), rk);
        lemma_forest_dir_total_bounded(s.last().children@, rk);
    }
}

pub fn count_directories(dirs: &Vec<DirectoryNode>, root_path: &str) -> (r: usize)
    ensures
        r == forest_dir_total(dirs@, path_key(root_path@)),
    decreases dirs@,
{
    let root_key = normalized_path_key_str(root_path);
    let mut acc: usize = 0;
    let mut i: usize = 0;
    while i < dirs.len()
        invariant
            i <= dirs.len(),
            root_key@ == path_key(root_path@),
            acc == forest_dir_total(dirs@.take(i as int), root_key@),
        decreases dirs.len() - i,
    {
        let node = &dirs[i];
        assert(decreases_to!(dirs@ => dirs@[i as int]));
        assert(decreases_to!(dirs@[i as int] => dirs@[i as int].children@));
        let key = normalized_path_key_str(node.path.as_str());
        let here: usize = if str_eq(key.as_str(), root_key.as_str()) {
            0
        } else {
            let below = count_directories(&node.children, root_path);
            below.saturating_add(1)
        };
        acc = acc.saturating_add(here);
        proof {
            let t = dirs@.take(i as int + 1);
            assert(t.drop_last() =~= dirs@.take(i as int));
            assert(t.last() == dirs@[i as int]);
        }
        i = i + 1;
    }
    assert(dirs@.take(dirs.len() as int) =~= dirs@);
    acc
}

/// The name given to the node that holds the scan root's own files.
pub const ROOT_FILES_NODE_NAME: &'static str = "根目录文件";

/// A node with its `has_children` flag refreshed.
pub open spec fn with_fresh_flag(n: DirectoryNode) -> DirectoryNode {
    DirectoryNode { has_children: n.children@.len() > 0, ..n }
}

/// The nodes of `s` not keyed `root_key`, flags refreshed, in order.
pub open spec fn kept_non_root(s: Seq<DirectoryNode>, root_key: Seq<char>) -> Seq<DirectoryNode>
    decreases s.len(),
{
    if s.len() == 0 {
        seq![]
    } else if path_key(s.last().path@) != root_key {
        kept_non_root(s.drop_last(), root_key).push(with_fresh_flag(s.last()))
    } else {
        kept_non_root(s.drop_last(), root_key)
    }
}

/// The node holding the scan root's own files.
pub open spec fn is_root_files_node(n: DirectoryNode, root_path: Seq<char>, size: u64, files: usize) -> bool {
    &&& n.path@ == root_path
    &&& n.name@ == ROOT_FILES_NODE_NAME@
    &&& n.size == size
    &&& n.file_count == files
    &&& n.dir_count == 0
    &&& n.children@.len() == 0
    &&& !n.has_children
    &&& !n.is_symlink
    &&& n.link_target is None
    &&& n.safety is None
    &&& n.modified_time is None
    &&& n.file_id is None
}

proof fn lemma_kept_non_root_keys(s: Seq<DirectoryNode>, rk: Seq<char>)
    ensures
        forall|i: int| 0 <= i < kept_non_root(s, rk).len() ==> path_key(#[trigger] kept_non_root(s, rk)[i].path@) != rk,
    decreases s.len(),
{
    if s.len() > 0 {
        lemma_kept_non_root_keys(s.drop_last(), rk);
    }
}

/// Replaces the node of the scan root's own files: drops every top-level
/// node keyed as the root, adds a fresh one when the root holds files,
/// refreshes every top-level `has_children` flag and orders the top level
/// by size, largest first.
pub fn upsert_root_files_node(nodes: &mut Vec<DirectoryNode>, root_path: &str, root_size: u64, root_files: usize)
    ensures
        ({
            let kept = kept_non_root(old(nodes)@, path_key(root_path@));
            let fin = final(nodes)@;
            &&& sorted_by_size(fin)
            &&& fin.len() == kept.len() + (if root_size > 0 || root_files > 0 { 1int } else { 0 })
            &&& forall|i: int| 0 <= i < fin.len() && path_key(fin[i].path@) != path_key(root_path@)
                ==> kept.contains(#[trigger] fin[i])
            &&& forall|i: int| 0 <= i < kept.len() ==> fin.contains(#[trigger] kept[i])
            &&& forall|i: int| 0 <= i < fin.len() && path_key(fin[i].path@) == path_key(root_path@)
                ==> is_root_files_node(#[trigger] fin[i], root_path@, root_size, root_files)
            &&& (root_size > 0 || root_files > 0) ==> exists|i: int|
                0 <= i < fin.len() && path_key(#[trigger] fin[i].path@) == path_key(root_path@)
            &&& !(root_size > 0 || root_files > 0) ==> forall|i: int|
                0 <= i < fin.len() ==> path_key(#[trigger] fin[i].path@) != path_key(root_path@)
            &&& forall|i: int| 0 <= i < fin.len() ==> #[trigger] fin[i].has_children == (fin[i].children@.len() > 0)
        }),
{
    let root_key = normalized_path_key_str(root_path);
    let mut src: Vec<DirectoryNode> = Vec::new();
    std::mem::swap(&mut src, nodes);
    let ghost orig = src@;
    let ghost rk = root_key@;
    let n0 = src.len();
    assert(orig.len() == n0);
    let mut k: usize = 0;
    while src.len() > 0
        invariant
            orig == old(nodes)@,
            rk == path_key(root_path@),
            root_key@ == rk,
            k + src.len() == orig.len(),
            orig.len() <= usize::MAX,
            src@ == orig.skip(k as int),
            nodes@ == kept_non_root(orig.take(k as int), rk),
        decreases src.len(),
    {
        let mut node = src.remove(0);
        proof {
            assert(node == orig[k as int]);
            assert(src@ =~= orig.skip(k as int + 1));
            assert(orig.take(k as int + 1).drop_last() =~= orig.take(k as int));
            assert(orig.take(k as int + 1).last() == orig[k as int]);
        }
        let key = normalized_path_key_str(node.path.as_str());
        if !str_eq(key.as_str(), root_key.as_str()) {
            node.has_children = node.children.len() > 0;
            nodes.push(node);
        }
        k = k + 1;
    }
    assert(orig.take(orig.len() as int) =~= orig);
    let ghost kept = nodes@;
    if root_size > 0 || root_files > 0 {
        nodes.push(DirectoryNode {
            path: crate::text::owned(root_path),
            name: crate::text::owned(ROOT_FILES_NODE_NAME),
            size: root_size,
            file_count: root_files,
            dir_count: 0,
            children: Vec::new(),
            has_children: false,
            is_symlink: false,
            link_target: None,
            safety: None,
            modified_time: None,
            file_id: None,
        });
    }
    let ghost pre = nodes@;
    crate::tree::sort_level_by_size(nodes);
    proof {
        let fin = nodes@;
        lemma_kept_non_root_keys(orig, rk);
        pre.to_multiset_ensures();
        fin.to_multiset_ensures();
        assert forall|i: int| 0 <= i < fin.len() && path_key(fin[i].path@) != rk implies kept.contains(#[trigger] fin[i]) by {
            assert(fin.to_multiset().count(fin[i]) > 0);
            assert(pre.contains(fin[i]));
            let j = choose|j: int| 0 <= j < pre.len() && pre[j] == fin[i];
            if j >= kept.len() {
                assert(path_key(pre[j].path@) == rk);
            } else {
                assert(kept[j] == pre[j]);
            }
        }
        assert forall|i: int| 0 <= i < kept.len() implies fin.contains(#[trigger] kept[i]) by {
            assert(pre[i] == kept[i]);
            assert(pre.to_multiset().count(kept[i]) > 0);
        }
        assert forall|i: int| 0 <= i < fin.len() && path_key(fin[i].path@) == rk implies is_root_files_node(
            #[trigger] fin[i],
            root_path@,
            root_size,
            root_files,
        ) by {
            assert(fin.to_multiset().count(fin[i]) > 0);
            assert(pre.contains(fin[i]));
            let j = choose|j: int| 0 <= j < pre.len() && pre[j] == fin[i];
            if j < kept.len() {
                assert(kept[j] == pre[j]);
                assert(path_key(kept[j].path@) != rk);
            }
        }
        if root_size > 0 || root_files > 0 {
            let last = pre[pre.len() - 1];
            assert(path_key(last.path@) == rk);
            assert(pre.to_multiset().count(last) > 0);
            assert(fin.contains(last));
            let i = choose|i: int| 0 <= i < fin.len() && fin[i] == last;
            assert(path_key(fin[i].path@) == rk);
        }
        if !(root_size > 0 || root_files > 0) {
            assert forall|i: int| 0 <= i < fin.len() implies path_key(#[trigger] fin[i].path@) != rk by {
                assert(fin.to_multiset().count(fin[i]) > 0);
                assert(pre.contains(fin[i]));
                let j = choose|j: int| 0 <= j < pre.len() && pre[j] == fin[i];
                assert(kept[j] == pre[j]);
            }
        }
        assert forall|i: int| 0 <= i < fin.len() implies #[trigger] fin[i].has_children == (fin[i].children@.len() > 0) by {
            assert(fin.to_multiset().count(fin[i]) > 0);
            assert(pre.contains(fin[i]));
            let j = choose|j: int| 0 <= j < pre.len() && pre[j] == fin[i];
            if j < kept.len() {
                lemma_kept_flags(orig, rk, j);
            }
        }
    }
}

proof fn lemma_kept_flags(s: Seq<DirectoryNode>, rk: Seq<char>, j: int)
    requires
        0 <= j < kept_non_root(s, rk).len(),
    ensures
        kept_non_root(s, rk)[j].has_children == (kept_non_root(s, rk)[j].children@.len() > 0),
    decreases s.len(),
{
    if s.len() > 0 {
        if path_key(s.last().path@) != rk {
            if j < kept_non_root(s.drop_last(), rk).len() {
                lemma_kept_flags(s.drop_last(), rk, j);
            }
        } else {
            lemma_kept_flags(s.drop_last(), rk, j);
        }
    }
}

// ---------------------------------------------------------------------------
// Direct-file refreshes
// ---------------------------------------------------------------------------

/// What a refreshed directory brings: its own size and file count, its
/// modification time and its file id.
type DirectRefresh = (u64, usize, Option<u64>, Option<u64>);

/// Two nodes with the same size, file count and directory count.
pub open spec fn same_totals(a: DirectoryNode, b: DirectoryNode) -> bool {
    a.size == b.size && a.file_count == b.file_count && a.dir_count == b.dir_count
}

proof fn lemma_sums_pointwise(a: Seq<DirectoryNode>, b: Seq<DirectoryNode>)
    requires
        a.len() == b.len(),
        forall|j: int| 0 <= j < a.len() ==> #[trigger] same_totals(a[j], b[j]),
    ensures
        sum_size(a) == sum_size(b),
        sum_files(a) == sum_files(b),
        sum_dirs(a) == sum_dirs(b),
    decreases a.len(),
{
    if a.len() > 0 {
        assert(same_totals(a[a.len() - 1], b[b.len() - 1]));
        assert forall|j: int| 0 <= j < a.drop_last().len() implies #[trigger] same_totals(
            a.drop_last()[j],
            b.drop_last()[j],
        ) by {
            assert(same_totals(a[j], b[j]));
        }
        lemma_sums_pointwise(a.drop_last(), b.drop_last());
    }
}

/// The table `after` is `before` less some entries.
pub open spec fn shrinks<V>(before: Map<Seq<char>, V>, after: Map<Seq<char>, V>) -> bool {
    forall|k: Seq<char>| #[trigger] after.contains_key(k) ==> before.contains_key(k) && after[k] == before[k]
}

/// Some entry of `before` is gone from `after`.
pub open spec fn removed_some<V>(before: Map<Seq<char>, V>, after: Map<Seq<char>, V>) -> bool {
    exists|k: Seq<char>| #[trigger] before.contains_key(k) && !after.contains_key(k)
}

proof fn lemma_shrink_chain<V>(a: Map<Seq<char>, V>, b: Map<Seq<char>, V>, c: Map<Seq<char>, V>)
    requires
        shrinks(a, b),
        shrinks(b, c),
    ensures
        shrinks(a, c),
        removed_some(a, c) <==> (removed_some(a, b) || removed_some(b, c)),
{
    if removed_some(a, b) {
        let k = choose|k: Seq<char>| #[trigger] a.contains_key(k) && !b.contains_key(k);
        assert(!c.contains_key(k));
    }
    if removed_some(b, c) {
        let k = choose|k: Seq<char>| #[trigger] b.contains_key(k) && !c.contains_key(k);
        assert(a.contains_key(k));
    }
    if removed_some(a, c) {
        let k = choose|k: Seq<char>| #[trigger] a.contains_key(k) && !c.contains_key(k);
        if b.contains_key(k) {
            assert(removed_some(b, c));
        } else {
            assert(removed_some(a, b));
        }
    }
}

proof fn lemma_shrink_refl<V>(a: Map<Seq<char>, V>)
    ensures
        shrinks(a, a),
        !removed_some(a, a),
{
}

/// The node `n` took the refresh `u` in place of `o`: the same path, the
/// refreshed own size and file count plus its children's, the refreshed
/// time, and the refreshed id where the refresh has one.
pub open spec fn takes_refresh(n: DirectoryNode, o: DirectoryNode, u: (u64, usize, Option<u64>, Option<u64>)) -> bool {
    &&& n.path == o.path
    &&& n.size == sat_u64(u.0 + sum_size(n.children@))
    &&& n.file_count == sat_usize(u.1 + sum_files(n.children@))
    &&& n.modified_time == u.2
    &&& n.file_id == (if u.3 is Some { u.3 } else { o.file_id })
}

/// Node `i` of the level `s` has a refresh waiting in `u`, its key occurs
/// nowhere else in the forest, and it is not the scan root's empty node.
pub open spec fn refresh_due(
    s: Seq<DirectoryNode>,
    i: int,
    u: Map<Seq<char>, (u64, usize, Option<u64>, Option<u64>)>,
    root_key: Seq<char>,
) -> bool {
    let k = path_key(s[i].path@);
    &&& 0 <= i < s.len()
    &&& !(k == root_key && s[i].dir_count == 0)
    &&& key_count(s, k) == 1
    &&& u.contains_key(k)
}

proof fn lemma_key_count_take(s: Seq<DirectoryNode>, n: int, k: Seq<char>)
    requires
        0 <= n < s.len(),
    ensures
        key_count(s.take(n + 1), k) == key_count(s.take(n), k) + key_weight(s[n], k),
        key_count(s.take(n + 1), k) <= key_count(s, k),
    decreases s.len(),
{
    assert(s.take(n + 1).drop_last() =~= s.take(n));
    assert(s.take(n + 1).last() == s[n]);
    if n + 1 < s.len() {
        assert(s.drop_last().take(n + 1) =~= s.take(n + 1));
        assert(s.drop_last()[n] == s[n]);
        lemma_key_count_take(s.drop_last(), n, k);
    } else {
        assert(s.take(n + 1) =~= s);
    }
}

/// The walk of the refreshes leaves a node alone (and what lies below it)
/// when it is the scan root's own node: keyed as the root, with no
/// directory count.
pub open spec fn refresh_skips(n: DirectoryNode, root_key: Seq<char>) -> bool {
    path_key(n.path@) == root_key && n.dir_count == 0
}

/// How many nodes keyed `k` the walk of the refreshes visits in a forest.
pub open spec fn walked_count(s: Seq<DirectoryNode>, k: Seq<char>, root_key: Seq<char>) -> nat
    decreases s,
{
    if s.len() == 0 {
        0
    } else {
        proof {
            assert(decreases_to!(s => s.last()));
        }
        walked_count(s.drop_last(), k, root_key) + walked_weight(s.last(), k, root_key)
    }
}

/// How many nodes keyed `k` the walk visits at and below a node.
pub open spec fn walked_weight(n: DirectoryNode, k: Seq<char>, root_key: Seq<char>) -> nat
    decreases n,
{
    if refresh_skips(n, root_key) {
        0
    } else {
        proof {
            assert(decreases_to!(n => n.children));
        }
        (if path_key(n.path@) == k { 1nat } else { 0nat }) + walked_count(n.children@, k, root_key)
    }
}

proof fn lemma_walked_count_take(s: Seq<DirectoryNode>, n: int, k: Seq<char>, root_key: Seq<char>)
    requires
        0 <= n < s.len(),
    ensures
        walked_count(s.take(n + 1), k, root_key) == walked_count(s.take(n), k, root_key) + walked_weight(s[n], k, root_key),
        walked_count(s.take(n + 1), k, root_key) <= walked_count(s, k, root_key),
    decreases s.len(),
{
    assert(s.take(n + 1).drop_last() =~= s.take(n));
    assert(s.take(n + 1).last() == s[n]);
    if n + 1 < s.len() {
        assert(s.drop_last().take(n + 1) =~= s.take(n + 1));
        assert(s.drop_last()[n] == s[n]);
        lemma_walked_count_take(s.drop_last(), n, k, root_key);
    } else {
        assert(s.take(n + 1) =~= s);
    }
}

/// A node took the refresh `u`: the refreshed own size and file count plus
/// its children's, the refreshed time, and the refreshed id where the
/// refresh has one.
pub open spec fn refresh_fields(n: DirectoryNode, u: (u64, usize, Option<u64>, Option<u64>)) -> bool {
    &&& n.size == sat_u64(u.0 + sum_size(n.children@))
    &&& n.file_count == sat_usize(u.1 + sum_files(n.children@))
    &&& n.modified_time == u.2
    &&& (u.3 is Some ==> n.file_id == u.3)
}

/// Some node of the forest, at any depth, is keyed `k` and took the
/// refresh `u`.
pub open spec fn forest_takes(s: Seq<DirectoryNode>, k: Seq<char>, u: (u64, usize, Option<u64>, Option<u64>)) -> bool
    decreases s,
{
    if s.len() == 0 {
        false
    } else {
        proof {
            assert(decreases_to!(s => s.last()));
        }
        forest_takes(s.drop_last(), k, u) || (path_key(s.last().path@) == k && refresh_fields(s.last(), u))
            || forest_takes(s.last().children@, k, u)
    }
}

/// The node, or some node below it, is keyed `k` and took the refresh `u`.
pub open spec fn node_takes(n: DirectoryNode, k: Seq<char>, u: (u64, usize, Option<u64>, Option<u64>)) -> bool {
    (path_key(n.path@) == k && refresh_fields(n, u)) || forest_takes(n.children@, k, u)
}

/// One of the first `i` nodes of the list, or a node below it, took `u`.
pub open spec fn taken_before(s: Seq<DirectoryNode>, i: int, k: Seq<char>, u: (u64, usize, Option<u64>, Option<u64>)) -> bool {
    exists|j: int| 0 <= j < i && #[trigger] node_takes(s[j], k, u)
}

proof fn lemma_forest_takes_exists(s: Seq<DirectoryNode>, k: Seq<char>, u: (u64, usize, Option<u64>, Option<u64>))
    ensures
        forest_takes(s, k, u) <==> exists|i: int| 0 <= i < s.len() && #[trigger] node_takes(s[i], k, u),
    decreases s.len(),
{
    if s.len() > 0 {
        lemma_forest_takes_exists(s.drop_last(), k, u);
        let d = s.drop_last();
        if forest_takes(s, k, u) {
            if forest_takes(d, k, u) {
                let i = choose|i: int| 0 <= i < d.len() && #[trigger] node_takes(d[i], k, u);
                assert(s[i] == d[i]);
                assert(node_takes(s[i], k, u));
            } else {
                assert(node_takes(s[s.len() - 1], k, u));
            }
        }
        if exists|i: int| 0 <= i < s.len() && #[trigger] node_takes(s[i], k, u) {
            let i = choose|i: int| 0 <= i < s.len() && #[trigger] node_takes(s[i], k, u);
            if i < s.len() - 1 {
                assert(d[i] == s[i]);
                assert(node_takes(d[i], k, u));
            }
        }
    }
}

/// Applies direct-file refreshes below `nodes`: a node whose key has a
/// refresh takes that own part (each refresh is used once), and every node
/// with a refreshed node below it is recomputed as own part plus children.
/// A level where anything changed is re-sorted by size. Returns whether
/// anything at this level changed.
fn refresh_walk(
    nodes: &mut Vec<DirectoryNode>,
    updates: &mut StringHashMap<DirectRefresh>,
    root_key: &str,
) -> (r: bool)
    ensures
        final(nodes)@.len() == old(nodes)@.len(),
        shrinks(old(updates)@, final(updates)@),
        r <==> removed_some(old(updates)@, final(updates)@),
        !r ==> forall|j: int| 0 <= j < old(nodes)@.len() ==> #[trigger] same_totals(final(nodes)@[j], old(nodes)@[j]),
        tree_ok(old(nodes)@, Map::empty(), Map::empty()) ==> tree_ok(final(nodes)@, Map::empty(), Map::empty()),
        forall|k: Seq<char>|
            old(updates)@.contains_key(k) && key_count(old(nodes)@, k) == 0 ==> #[trigger] final(updates)@.contains_key(k),
        forall|i: int| #[trigger]
            refresh_due(old(nodes)@, i, old(updates)@, root_key@) ==> exists|j: int|
                0 <= j < final(nodes)@.len() && #[trigger] takes_refresh(
                    final(nodes)@[j],
                    old(nodes)@[i],
                    old(updates)@[path_key(old(nodes)@[i].path@)],
                ),
        forall|k: Seq<char>|
            old(updates)@.contains_key(k) && walked_count(old(nodes)@, k, root_key@) == 0
                ==> #[trigger] final(updates)@.contains_key(k),
        forall|k: Seq<char>|
            k != root_key@ && old(updates)@.contains_key(k) && walked_count(old(nodes)@, k, root_key@) == 1
                ==> #[trigger] forest_takes(final(nodes)@, k, old(updates)@[k]),
        forest_count(final(nodes)@) == forest_count(old(nodes)@),
        forall|k: Seq<char>| #[trigger] key_count(final(nodes)@, k) == key_count(old(nodes)@, k),
    decreases old(nodes)@,
{
    let ghost orig = nodes@;
    let ghost e = Map::<Seq<char>, (u64, usize)>::empty();
    proof {
        lemma_tree_ok_forall(orig, e, e);
    }
    let mut any_changed = false;
    let mut i: usize = 0;
    while i < nodes.len()
        invariant
            i <= nodes.len(),
            nodes.len() == orig.len(),
            orig == old(nodes)@,
            e == Map::<Seq<char>, (u64, usize)>::empty(),
            forall|j: int| i <= j < orig.len() ==> nodes@[j] == orig[j],
            shrinks(old(updates)@, updates@),
            any_changed <==> removed_some(old(updates)@, updates@),
            !any_changed ==> forall|j: int| 0 <= j < i ==> #[trigger] same_totals(nodes@[j], orig[j]),
            forall|j: int| 0 <= j < i && #[trigger] tree_ok(orig[j].children@, e, e) && totals_ok(orig[j], e, e)
                ==> tree_ok(nodes@[j].children@, e, e) && totals_ok(nodes@[j], e, e),
            forall|k: Seq<char>|
                old(updates)@.contains_key(k) && key_count(orig.take(i as int), k) == 0
                    ==> #[trigger] updates@.contains_key(k),
            forall|j: int| 0 <= j < i && #[trigger] refresh_due(orig, j, old(updates)@, root_key@) ==> takes_refresh(
                nodes@[j],
                orig[j],
                old(updates)@[path_key(orig[j].path@)],
            ),
            forall|j: int| 0 <= j < i ==> #[trigger] same_shape(orig[j], nodes@[j]),
            forall|k: Seq<char>|
                old(updates)@.contains_key(k) && walked_count(orig.take(i as int), k, root_key@) == 0
                    ==> #[trigger] updates@.contains_key(k),
            forall|k: Seq<char>|
                k != root_key@ && old(updates)@.contains_key(k) && walked_count(orig, k, root_key@) == 1
                    && walked_count(orig.take(i as int), k, root_key@) == 1 ==> #[trigger] taken_before(
                    nodes@,
                    i as int,
                    k,
                    old(updates)@[k],
                ),
        decreases nodes.len() - i,
    {
        assert(decreases_to!(old(nodes)@ => orig[i as int]));
        let ghost before = nodes@;
        let key = normalized_path_key_str(nodes[i].path.as_str());
        let ghost u0 = updates@;
        proof {
            assert forall|k: Seq<char>| #[trigger] key_count(orig.take(i as int + 1), k) == key_count(
                orig.take(i as int),
                k,
            ) + key_weight(orig[i as int], k) by {
                lemma_key_count_take(orig, i as int, k);
            }
            let ki = path_key(orig[i as int].path@);
            if refresh_due(orig, i as int, old(updates)@, root_key@) {
                lemma_key_count_take(orig, i as int, ki);
                assert(key_count(orig.take(i as int), ki) == 0);
                assert(u0.contains_key(ki));
            }
        }
        proof {
            assert forall|k: Seq<char>| #[trigger] walked_count(orig.take(i as int + 1), k, root_key@)
                == walked_count(orig.take(i as int), k, root_key@) + walked_weight(orig[i as int], k, root_key@) by {
                lemma_walked_count_take(orig, i as int, k, root_key@);
            }
        }
        if str_eq(key.as_str(), root_key) && nodes[i].dir_count == 0 {
            i = i + 1;
        } else {
            let changed_here = refresh_node(&mut nodes[i], updates, root_key, key);
            proof {
                lemma_shrink_chain(old(updates)@, u0, updates@);
            }
            proof {
                assert forall|j: int| 0 <= j < orig.len() && j != i implies nodes@[j] == before[j] by {}
            }
            if changed_here {
                any_changed = true;
            }
            i = i + 1;
        }
        proof {
            assert forall|k: Seq<char>|
                old(updates)@.contains_key(k) && key_count(orig.take(i as int), k) == 0
                    implies #[trigger] updates@.contains_key(k) by {
                assert(key_count(orig.take(i - 1), k) == 0);
                assert(u0.contains_key(k));
            }
            assert forall|j: int| 0 <= j < i && #[trigger] refresh_due(orig, j, old(updates)@, root_key@) implies takes_refresh(
                nodes@[j],
                orig[j],
                old(updates)@[path_key(orig[j].path@)],
            ) by {
                if j < i - 1 {
                    assert(nodes@[j] == before[j]);
                }
            }
            assert forall|k: Seq<char>|
                old(updates)@.contains_key(k) && walked_count(orig.take(i as int), k, root_key@) == 0
                    implies #[trigger] updates@.contains_key(k) by {
                assert(walked_count(orig.take(i - 1), k, root_key@) == 0);
                assert(u0.contains_key(k));
            }
            assert forall|j: int| 0 <= j < i implies #[trigger] same_shape(orig[j], nodes@[j]) by {
                if j < i - 1 {
                    assert(nodes@[j] == before[j]);
                } else {
                    assert(same_shape(orig[j], nodes@[j]));
                }
            }
            assert forall|k: Seq<char>|
                k != root_key@ && old(updates)@.contains_key(k) && walked_count(orig, k, root_key@) == 1
                    && walked_count(orig.take(i as int), k, root_key@) == 1 implies #[trigger] taken_before(
                nodes@,
                i as int,
                k,
                old(updates)@[k],
            ) by {
                let u = old(updates)@[k];
                if walked_count(orig.take(i - 1), k, root_key@) == 1 {
                    assert(taken_before(before, i - 1, k, u));
                    let j = choose|j: int| 0 <= j < i - 1 && #[trigger] node_takes(before[j], k, u);
                    assert(nodes@[j] == before[j]);
                    assert(node_takes(nodes@[j], k, u));
                } else {
                    assert(walked_count(orig.take(i - 1), k, root_key@) == 0);
                    assert(walked_weight(orig[i - 1], k, root_key@) == 1);
                    assert(u0.contains_key(k));
                    assert(shrinks(old(updates)@, u0));
                    assert(u0[k] == u);
                    assert(node_takes(nodes@[i - 1], k, u));
                }
            }
        }
    }
    assert(orig.take(orig.len() as int) =~= orig);
    let ghost walked = nodes@;
    proof {
        lemma_same_shape_sums(orig, walked);
    }
    proof {
        assert forall|k: Seq<char>|
            k != root_key@ && old(updates)@.contains_key(k) && walked_count(orig, k, root_key@) == 1
                implies #[trigger] forest_takes(walked, k, old(updates)@[k]) by {
            let u = old(updates)@[k];
            assert(taken_before(walked, orig.len() as int, k, u));
            lemma_forest_takes_exists(walked, k, u);
        }
    }
    proof {
        if tree_ok(orig, e, e) {
            assert forall|j: int| 0 <= j < nodes@.len() implies (#[trigger] tree_ok(nodes@[j].children@, e, e)
                && totals_ok(nodes@[j], e, e)) by {
                assert(tree_ok(orig[j].children@, e, e));
            }
            lemma_tree_ok_forall(nodes@, e, e);
        }
    }
    if any_changed {
        let ghost pre = nodes@;
        crate::tree::sort_level_by_size(nodes);
        proof {
            crate::tree::lemma_forest_count_sum(pre);
            crate::tree::lemma_forest_count_sum(nodes@);
            crate::tree::lemma_sum_perm(pre, nodes@, |n: DirectoryNode| crate::tree::weight_of(n));
            assert forall|k: Seq<char>| #[trigger] key_count(nodes@, k) == key_count(old(nodes)@, k) by {
                crate::tree::lemma_key_count_sum(pre, k);
                crate::tree::lemma_key_count_sum(nodes@, k);
                crate::tree::lemma_sum_perm(pre, nodes@, |n: DirectoryNode| crate::tree::key_weight(n, k));
            }
            if tree_ok(orig, e, e) {
                crate::tree::lemma_tree_ok_multiset(pre, nodes@, e, e);
            }
            pre.to_multiset_ensures();
            nodes@.to_multiset_ensures();
            assert forall|i: int| #[trigger] refresh_due(orig, i, old(updates)@, root_key@) implies exists|j: int|
                0 <= j < nodes@.len() && #[trigger] takes_refresh(
                    nodes@[j],
                    orig[i],
                    old(updates)@[path_key(orig[i].path@)],
                ) by {
                assert(pre.contains(pre[i]));
                assert(pre.to_multiset().count(pre[i]) > 0);
                assert(nodes@.to_multiset().count(pre[i]) > 0);
                assert(nodes@.contains(pre[i]));
                let j = choose|j: int| 0 <= j < nodes@.len() && nodes@[j] == pre[i];
                assert(takes_refresh(nodes@[j], orig[i], old(updates)@[path_key(orig[i].path@)]));
            }
            assert forall|k: Seq<char>|
                k != root_key@ && old(updates)@.contains_key(k) && walked_count(orig, k, root_key@) == 1
                    implies #[trigger] forest_takes(nodes@, k, old(updates)@[k]) by {
                let u = old(updates)@[k];
                assert(forest_takes(pre, k, u));
                lemma_forest_takes_exists(pre, k, u);
                let i = choose|i: int| 0 <= i < pre.len() && #[trigger] node_takes(pre[i], k, u);
                assert(pre.contains(pre[i]));
                assert(pre.to_multiset().count(pre[i]) > 0);
                assert(nodes@.to_multiset().count(pre[i]) > 0);
                assert(nodes@.contains(pre[i]));
                let j = choose|j: int| 0 <= j < nodes@.len() && nodes@[j] == pre[i];
                assert(node_takes(nodes@[j], k, u));
                lemma_forest_takes_exists(nodes@, k, u);
            }
        }
    } else {
        proof {
            assert forall|i: int| #[trigger] refresh_due(orig, i, old(updates)@, root_key@) implies exists|j: int|
                0 <= j < nodes@.len() && #[trigger] takes_refresh(
                    nodes@[j],
                    orig[i],
                    old(updates)@[path_key(orig[i].path@)],
                ) by {
                assert(takes_refresh(nodes@[i], orig[i], old(updates)@[path_key(orig[i].path@)]));
            }
        }
    }
    any_changed
}

/// One node of [`refresh_walk`]; `key` is the node's normalised key.
fn refresh_node(
    node: &mut DirectoryNode,
    updates: &mut StringHashMap<DirectRefresh>,
    root_key: &str,
    key: String,
) -> (r: bool)
    requires
        key@ == path_key(old(node).path@),
    ensures
        final(node).path == old(node).path,
        shrinks(old(updates)@, final(updates)@),
        r <==> removed_some(old(updates)@, final(updates)@),
        !r ==> same_totals(*final(node), *old(node)),
        r ==> totals_ok(*final(node), Map::empty(), Map::empty()),
        tree_ok(old(node).children@, Map::empty(), Map::empty()) ==> tree_ok(final(node).children@, Map::empty(), Map::empty()),
        !r && tree_ok(old(node).children@, Map::empty(), Map::empty()) && totals_ok(*old(node), Map::empty(), Map::empty())
            ==> totals_ok(*final(node), Map::empty(), Map::empty()),
        forall|k: Seq<char>|
            old(updates)@.contains_key(k) && key_weight(*old(node), k) == 0 ==> #[trigger] final(updates)@.contains_key(k),
        old(updates)@.contains_key(key@) && key_count(old(node).children@, key@) == 0 ==> takes_refresh(
            *final(node),
            *old(node),
            old(updates)@[key@],
        ),
        !refresh_skips(*old(node), root_key@) ==> forall|k: Seq<char>|
            old(updates)@.contains_key(k) && walked_weight(*old(node), k, root_key@) == 0
                ==> #[trigger] final(updates)@.contains_key(k),
        !refresh_skips(*old(node), root_key@) ==> forall|k: Seq<char>|
            k != root_key@ && old(updates)@.contains_key(k) && walked_weight(*old(node), k, root_key@) == 1
                ==> #[trigger] node_takes(*final(node), k, old(updates)@[k]),
        same_shape(*old(node), *final(node)),
    decreases *old(node), 0nat,
{
    let (old_cs, old_cf, _) = child_totals(&node.children);
    assert(decreases_to!(*old(node) => old(node).children@));
    let ghost u_start = updates@;
    let child_changed = refresh_walk(&mut node.children, updates, root_key);
    let ghost u_mid = updates@;
    let (new_cs, new_cf, new_cd) = child_totals(&node.children);
    let mut own_size = node.size.saturating_sub(old_cs);
    let mut own_files = node.file_count.saturating_sub(old_cf);
    let mut node_changed = child_changed;
    let found: Option<DirectRefresh> = match updates.get(key.as_str()) {
        Some(u) => Some(*u),
        None => None,
    };
    let ghost fnd = found;
    match found {
        Some(u) => {
            updates.remove(key.as_str());
            proof {
                assert(u_mid.contains_key(key@));
                assert(!updates@.contains_key(key@));
                assert(removed_some(u_mid, updates@));
                lemma_shrink_chain(u_start, u_mid, updates@);
            }
            own_size = u.0;
            own_files = u.1;
            node.modified_time = u.2;
            node.file_id = match u.3 {
                Some(id) => Some(id),
                None => node.file_id,
            };
            node.has_children = node.children.len() > 0;
            node_changed = true;
        },
        None => {},
    }
    if node_changed {
        node.size = own_size.saturating_add(new_cs);
        node.file_count = own_files.saturating_add(new_cf);
        node.dir_count = new_cd.saturating_add(1);
        node.has_children = node.children.len() > 0;
        proof {
            crate::tree::lemma_sum_nonneg(node.children@, |x: DirectoryNode| size_of(x));
            crate::tree::lemma_sum_nonneg(node.children@, |x: DirectoryNode| files_of(x));
        }
    } else {
        proof {
            lemma_sums_pointwise(node.children@, old(node).children@);
        }
    }
    proof {
        if !refresh_skips(*old(node), root_key@) {
            assert forall|k: Seq<char>|
                old(updates)@.contains_key(k) && walked_weight(*old(node), k, root_key@) == 0
                    implies #[trigger] updates@.contains_key(k) by {
                assert(walked_count(old(node).children@, k, root_key@) == 0);
                assert(u_mid.contains_key(k));
            }
            assert forall|k: Seq<char>|
                k != root_key@ && old(updates)@.contains_key(k) && walked_weight(*old(node), k, root_key@) == 1
                    implies #[trigger] node_takes(*node, k, old(updates)@[k]) by {
                if k == key@ {
                    assert(walked_count(old(node).children@, k, root_key@) == 0);
                    assert(u_mid.contains_key(k) && u_mid[k] == old(updates)@[k]);
                    assert(fnd == Some(u_mid[k]));
                    crate::tree::lemma_sum_nonneg(node.children@, |x: DirectoryNode| size_of(x));
                    crate::tree::lemma_sum_nonneg(node.children@, |x: DirectoryNode| files_of(x));
                    assert(refresh_fields(*node, old(updates)@[k]));
                } else {
                    assert(walked_count(old(node).children@, k, root_key@) == 1);
                    assert(forest_takes(node.children@, k, u_start[k]));
                }
            }
        }
    }
    node_changed
}

/// The refreshes by directory key: each refreshed node's own part, time and
/// id; a later node of the same key replaces an earlier one.
pub open spec fn refresh_table(s: Seq<DirectoryNode>) -> Map<Seq<char>, (u64, usize, Option<u64>, Option<u64>)>
    decreases s.len(),
{
    if s.len() == 0 {
        Map::empty()
    } else {
        let n = s.last();
        refresh_table(s.drop_last()).insert(
            path_key(n.path@),
            (own_part(n).0, own_part(n).1, n.modified_time, n.file_id),
        )
    }
}

/// Folds direct-file refreshes into the tree without rebuilding it: each
/// refreshed directory takes its new own size and file count (what it holds
/// beyond its children), time and id, and its ancestors are recomputed. A
/// node keyed as the scan root with no directory count is left alone.
pub fn apply_direct_file_refreshes(
    tree: Vec<DirectoryNode>,
    refreshed_nodes: Vec<DirectoryNode>,
    root_path: &str,
) -> (r: Vec<DirectoryNode>)
    ensures
        r@.len() == tree@.len(),
        tree_ok(tree@, Map::empty(), Map::empty()) ==> tree_ok(r@, Map::empty(), Map::empty()),
        forall|i: int| #[trigger]
            refresh_due(tree@, i, refresh_table(refreshed_nodes@), path_key(root_path@)) ==> exists|j: int|
                0 <= j < r@.len() && #[trigger] takes_refresh(
                    r@[j],
                    tree@[i],
                    refresh_table(refreshed_nodes@)[path_key(tree@[i].path@)],
                ),
        forall|k: Seq<char>|
            k != path_key(root_path@) && refresh_table(refreshed_nodes@).contains_key(k) && walked_count(
                tree@,
                k,
                path_key(root_path@),
            ) == 1 ==> #[trigger] forest_takes(r@, k, refresh_table(refreshed_nodes@)[k]),
        forall|k: Seq<char>| #[trigger] key_count(r@, k) == key_count(tree@, k),
{
    let mut updates: StringHashMap<DirectRefresh> = StringHashMap::new();
    let mut i: usize = 0;
    while i < refreshed_nodes.len()
        invariant
            i <= refreshed_nodes.len(),
            updates@ == refresh_table(refreshed_nodes@.take(i as int)),
        decreases refreshed_nodes.len() - i,
    {
        let node = &refreshed_nodes[i];
        let (cs, cf, _) = child_totals(&node.children);
        let own_size = node.size.saturating_sub(cs);
        let own_files = node.file_count.saturating_sub(cf);
        updates.insert(
            normalized_path_key_str(node.path.as_str()),
            (own_size, own_files, node.modified_time, node.file_id),
        );
        proof {
            let t = refreshed_nodes@.take(i as int + 1);
            assert(t.drop_last() =~= refreshed_nodes@.take(i as int));
            assert(t.last() == refreshed_nodes@[i as int]);
        }
        i = i + 1;
    }
    assert(refreshed_nodes@.take(refreshed_nodes@.len() as int) =~= refreshed_nodes@);
    let root_key = normalized_path_key_str(root_path);
    let mut tree = tree;
    let _ = refresh_walk(&mut tree, &mut updates, root_key.as_str());
    tree
}

// ---------------------------------------------------------------------------
// Change detection
// ---------------------------------------------------------------------------

/// How far (seconds) a directory's modification time may run ahead of the
/// wall clock, or fall behind the cached time, without counting as a change.
pub const CLOCK_SKEW_TOLERANCE_SECS: u64 = 60;

/// What happened to a cached directory.
#[derive(Debug, Clone, Copy, PartialEq, Eq, Structural)]
pub enum ChangeStatus {
    Unchanged,
    Modified,
    Deleted,
    New,
}

/// How a changed directory is rescanned.
#[derive(Debug, Clone, Copy, PartialEq, Eq, Structural)]
pub enum RescanMode {
    Recursive,
    DirectFilesOnly,
}

/// A directory to rescan.
pub struct ChangedDirectory {
    pub path: String,
    pub status: ChangeStatus,
    pub mode: RescanMode,
}

/// Progress of an incremental scan, as reported to the interface.
pub struct IncrementalScanProgress {
    pub phase: String,
    pub total_dirs: usize,
    pub checked_dirs: usize,
    pub changed_dirs: usize,
    pub scanned_dirs: usize,
}

/// The status of a cached directory given what the file system shows now:
/// gone or no longer a directory is `Deleted`; a modification time beyond
/// the wall clock plus the tolerance is `Modified`; otherwise it is
/// `Unchanged` when the cached and current times agree, or the current one
/// is behind the cached one by less than the tolerance, and `Modified` in
/// every other case (a time missing on either side included).
pub open spec fn change_status_of(cached: Option<u64>, is_directory: bool, current: Option<u64>, wall_now: u64) -> ChangeStatus {
    if !is_directory {
        ChangeStatus::Deleted
    } else if current matches Some(t) && t > sat_u64(wall_now + CLOCK_SKEW_TOLERANCE_SECS) {
        ChangeStatus::Modified
    } else {
        match (cached, current) {
            (Some(c), Some(t)) => if c == t || (t < c && c - t < CLOCK_SKEW_TOLERANCE_SECS) {
                ChangeStatus::Unchanged
            } else {
                ChangeStatus::Modified
            },
            _ => ChangeStatus::Modified,
        }
    }
}

/// What a cached directory's times decide: a directory that is gone is
/// deleted; a current time later than the cached one, or missing on either
/// side, means modified; the same time, or one less than a minute behind
/// the cached one, means unchanged (unless it lies beyond the clock-skew
/// tolerance in the future); a time a minute or more behind means modified.
pub proof fn law_change_status(cached: Option<u64>, is_directory: bool, current: Option<u64>, wall_now: u64, c: u64, t: u64)
    ensures
        CLOCK_SKEW_TOLERANCE_SECS == 60,
        !is_directory ==> change_status_of(cached, is_directory, current, wall_now) == ChangeStatus::Deleted,
        is_directory && (cached is None || current is None) ==> change_status_of(cached, is_directory, current, wall_now)
            == ChangeStatus::Modified,
        t > c ==> change_status_of(Some(c), true, Some(t), wall_now) == ChangeStatus::Modified,
        t <= c && c - t < 60 && t <= wall_now + 60 ==> change_status_of(Some(c), true, Some(t), wall_now)
            == ChangeStatus::Unchanged,
        t + 60 <= c ==> change_status_of(Some(c), true, Some(t), wall_now) == ChangeStatus::Modified,
{
}

/// Whether a cached directory changed. `is_directory` tells whether the
/// path still exists as a directory (through a link, what the link points
/// to), `current_modified` its modification time in seconds since the epoch
/// when the file system gives one, `wall_now` the current time.
pub fn check_directory_changes(
    cached_node: &DirectoryNode,
    is_directory: bool,
    current_modified: Option<u64>,
    wall_now: u64,
) -> (r: ChangeStatus)
    ensures
        r == change_status_of(cached_node.modified_time, is_directory, current_modified, wall_now),
        (is_directory && cached_node.modified_time is Some && current_modified is Some && current_modified->0
            > cached_node.modified_time->0) ==> r == ChangeStatus::Modified,
        !is_directory ==> r == ChangeStatus::Deleted,
{
    if !is_directory {
        return ChangeStatus::Deleted;
    }
    match current_modified {
        Some(t) => {
            if t > wall_now.saturating_add(CLOCK_SKEW_TOLERANCE_SECS) {
                return ChangeStatus::Modified;
            }
        },
        None => {},
    }
    match (cached_node.modified_time, current_modified) {
        (Some(c), Some(t)) => {
            if c == t || (t < c && c - t < CLOCK_SKEW_TOLERANCE_SECS) {
                ChangeStatus::Unchanged
            } else {
                ChangeStatus::Modified
            }
        },
        _ => ChangeStatus::Modified,
    }
}

/// A path text with `/` read as `\` and trailing separators dropped (a
/// root keeps its own); letter case is kept.
pub open spec fn path_text(p: Seq<char>) -> Seq<char> {
    crate::path_utils::strip_trailing_backslashes(crate::text::replace_char(p, '/', '\\'))
}

/// Whether two path texts name the same path, letter case significant.
fn same_path_text(a: &str, b: &str) -> (r: bool)
    ensures
        r == (path_text(a@) == path_text(b@)),
{
    let ra = replace_char_str(a, '/', '\\');
    let rb = replace_char_str(b, '/', '\\');
    let mut va = chars_of(ra.as_str());
    let mut vb = chars_of(rb.as_str());
    while va.len() > 0 && va[va.len() - 1] == '\\' && !crate::path_utils::is_windows_root_chars(va.as_slice())
        invariant
            crate::path_utils::strip_trailing_backslashes(va@) == path_text(a@),
        decreases va.len(),
    {
        let _ = va.pop();
    }
    while vb.len() > 0 && vb[vb.len() - 1] == '\\' && !crate::path_utils::is_windows_root_chars(vb.as_slice())
        invariant
            crate::path_utils::strip_trailing_backslashes(vb@) == path_text(b@),
        decreases vb.len(),
    {
        let _ = vb.pop();
    }
    chars_eq(va.as_slice(), vb.as_slice())
}

/// Whether a cached directory is a rescan candidate under the scan root:
/// below the root and not the root itself.
pub open spec fn below_scan_root(p: Seq<char>, root: Seq<char>) -> bool {
    path_text(p) != path_text(root) && crate::path_utils::key_prefix_holds(path_key(p), path_key(root))
}

/// The paths of a forest in pre-order: each node, then its subtree.
pub open spec fn preorder_paths(s: Seq<DirectoryNode>) -> Seq<Seq<char>>
    decreases s,
{
    if s.len() == 0 {
        seq![]
    } else {
        proof {
            assert(decreases_to!(s => s.last()));
        }
        preorder_paths(s.drop_last()) + seq![s.last().path@] + preorder_paths(s.last().children@)
    }
}

/// Every cached directory below the scan root, in pre-order, as a
/// recursive rescan candidate.
pub fn collect_all_cached_dirs_as_recursive(cached_tree: &Vec<DirectoryNode>, root_path: &str) -> (r: Vec<ChangedDirectory>)
    ensures
        r@.map_values(|c: ChangedDirectory| c.path@) == preorder_paths(cached_tree@).filter(
            |p: Seq<char>| below_scan_root(p, root_path@),
        ),
        forall|i: int| 0 <= i < r@.len() ==> (#[trigger] r@[i]).status == ChangeStatus::Modified && r@[i].mode
            == RescanMode::Recursive,
{
    let mut out: Vec<ChangedDirectory> = Vec::new();
    let root_key = normalized_path_key_str(root_path);
    collect_candidates(cached_tree, root_path, root_key.as_str(), &mut out);
    assert(out@.map_values(|c: ChangedDirectory| c.path@) =~= seq![] + preorder_paths(cached_tree@).filter(
        |p: Seq<char>| below_scan_root(p, root_path@),
    ));
    out
}

fn collect_candidates(nodes: &Vec<DirectoryNode>, root_path: &str, root_key: &str, out: &mut Vec<ChangedDirectory>)
    requires
        root_key@ == path_key(root_path@),
        forall|i: int| 0 <= i < old(out)@.len() ==> (#[trigger] old(out)@[i]).status == ChangeStatus::Modified
            && old(out)@[i].mode == RescanMode::Recursive,
    ensures
        final(out)@.map_values(|c: ChangedDirectory| c.path@) == old(out)@.map_values(|c: ChangedDirectory| c.path@)
            + preorder_paths(nodes@).filter(|p: Seq<char>| below_scan_root(p, root_path@)),
        forall|i: int| 0 <= i < final(out)@.len() ==> (#[trigger] final(out)@[i]).status == ChangeStatus::Modified
            && final(out)@[i].mode == RescanMode::Recursive,
    decreases nodes@,
{
    let ghost pred = |p: Seq<char>| below_scan_root(p, root_path@);
    let ghost start = old(out)@.map_values(|c: ChangedDirectory| c.path@);
    let mut i: usize = 0;
    while i < nodes.len()
        invariant
            i <= nodes.len(),
            root_key@ == path_key(root_path@),
            pred == (|p: Seq<char>| below_scan_root(p, root_path@)),
            start == old(out)@.map_values(|c: ChangedDirectory| c.path@),
            out@.map_values(|c: ChangedDirectory| c.path@) == start + preorder_paths(nodes@.take(i as int)).filter(pred),
            forall|k: int| 0 <= k < out@.len() ==> (#[trigger] out@[k]).status == ChangeStatus::Modified
                && out@[k].mode == RescanMode::Recursive,
        decreases nodes.len() - i,
    {
        let node = &nodes[i];
        assert(decreases_to!(nodes@ => nodes@[i as int]));
        assert(decreases_to!(nodes@[i as int] => nodes@[i as int].children@));
        let ghost before = out@.map_values(|c: ChangedDirectory| c.path@);
        let key = normalized_path_key_str(node.path.as_str());
        let take = !same_path_text(node.path.as_str(), root_path)
            && crate::path_utils::normalized_path_starts_with(key.as_str(), root_key);
        if take {
            out.push(ChangedDirectory {
                path: crate::text::owned(node.path.as_str()),
                status: ChangeStatus::Modified,
                mode: RescanMode::Recursive,
            });
        }
        let ghost mid = out@.map_values(|c: ChangedDirectory| c.path@);
        proof {
            assert(take == pred(node.path@));
            reveal_with_fuel(Seq::filter, 2);
            assert(seq![node.path@].drop_last() =~= Seq::<Seq<char>>::empty());
            assert(Seq::<Seq<char>>::empty().filter(pred) =~= Seq::<Seq<char>>::empty());
            assert(seq![node.path@].filter(pred) =~= (if take { seq![node.path@] } else { seq![] }));
            assert(mid =~= before + seq![node.path@].filter(pred));
        }
        collect_candidates(&node.children, root_path, root_key, out);
        proof {
            let t = nodes@.take(i as int + 1);
            assert(t.drop_last() =~= nodes@.take(i as int));
            assert(t.last() == nodes@[i as int]);
            let a = preorder_paths(nodes@.take(i as int));
            let b = seq![node.path@];
            let c = preorder_paths(node.children@);
            assert(preorder_paths(t) == a + b + c);
            Seq::filter_distributes_over_add(a + b, c, pred);
            Seq::filter_distributes_over_add(a, b, pred);
            assert(out@.map_values(|c: ChangedDirectory| c.path@) =~= start + preorder_paths(t).filter(pred));
        }
        i = i + 1;
    }
    assert(nodes@.take(nodes.len() as int) =~= nodes@);
}

// ---------------------------------------------------------------------------
// Merge health report
// ---------------------------------------------------------------------------

/// How many samples of each kind a health report keeps.
pub const HEALTH_SAMPLE_LIMIT: usize = 5;

/// Diagnostics of a merged forest.
pub struct TreeMergeHealth {
    pub unique_dir_nodes: usize,
    pub duplicate_paths: usize,
    pub orphan_root_count: usize,
    pub orphan_root_samples: Vec<String>,
    pub inconsistent_node_count: usize,
    pub inconsistent_node_samples: Vec<String>,
}

impl Default for TreeMergeHealth {
    fn default() -> (r: TreeMergeHealth)
        ensures
            r.unique_dir_nodes == 0,
            r.duplicate_paths == 0,
            r.orphan_root_count == 0,
            r.orphan_root_samples@.len() == 0,
            r.inconsistent_node_count == 0,
            r.inconsistent_node_samples@.len() == 0,
    {
        TreeMergeHealth {
            unique_dir_nodes: 0,
            duplicate_paths: 0,
            orphan_root_count: 0,
            orphan_root_samples: Vec::new(),
            inconsistent_node_count: 0,
            inconsistent_node_samples: Vec::new(),
        }
    }
}

/// The sample limits a report keeps.
pub open spec fn health_samples_bounded(h: TreeMergeHealth) -> bool {
    &&& h.orphan_root_samples@.len() <= HEALTH_SAMPLE_LIMIT
    &&& h.inconsistent_node_samples@.len() <= HEALTH_SAMPLE_LIMIT
}

/// A top-level node that is neither the scan root's own node nor a direct
/// child of the scan root.
pub open spec fn is_orphan_root(n: DirectoryNode, root_path: Seq<char>) -> bool {
    path_text(n.path@) != path_text(root_path) && !(parent_path_spec(n.path@) matches Some(p) && path_key(p)
        == path_key(root_path))
}

/// The number of orphan top-level nodes of a forest.
pub open spec fn orphan_count(s: Seq<DirectoryNode>, root_path: Seq<char>) -> int
    decreases s.len(),
{
    if s.len() == 0 {
        0
    } else {
        orphan_count(s.drop_last(), root_path) + (if is_orphan_root(s.last(), root_path) { 1int } else { 0 })
    }
}

/// `label` `=` `value`, after a space.
fn push_field(s: &mut String, label: &str, value: u64)
    ensures
        final(s)@ == old(s)@ + seq![' '] + label@ + seq!['='] + crate::text::decimal(value as nat),
{
    push_char(s, ' ');
    crate::text::push_str(s, label);
    push_char(s, '=');
    crate::text::push_decimal(s, value);
}

fn note_inconsistent(health: &mut TreeMergeHealth, path: &str, l1: &str, v1: u64, l2: &str, v2: u64)
    requires
        health_samples_bounded(*old(health)),
    ensures
        health_samples_bounded(*final(health)),
        final(health).orphan_root_count == old(health).orphan_root_count,
        final(health).orphan_root_samples == old(health).orphan_root_samples,
        final(health).unique_dir_nodes == old(health).unique_dir_nodes,
        final(health).duplicate_paths == old(health).duplicate_paths,
        final(health).inconsistent_node_count == sat_usize(old(health).inconsistent_node_count + 1),
        old(health).inconsistent_node_samples@.len() < HEALTH_SAMPLE_LIMIT ==> final(health).inconsistent_node_samples@
            == old(health).inconsistent_node_samples@.push(final(health).inconsistent_node_samples@.last())
            && final(health).inconsistent_node_samples@.last()@ == path@ + seq![' '] + l1@ + seq!['=']
            + crate::text::decimal(v1 as nat) + seq![' '] + l2@ + seq!['='] + crate::text::decimal(v2 as nat),
        old(health).inconsistent_node_samples@.len() >= HEALTH_SAMPLE_LIMIT ==> final(health).inconsistent_node_samples@
            == old(health).inconsistent_node_samples@,
{
    health.inconsistent_node_count = health.inconsistent_node_count.saturating_add(1);
    if health.inconsistent_node_samples.len() < HEALTH_SAMPLE_LIMIT {
        let mut line = crate::text::owned(path);
        push_field(&mut line, l1, v1);
        push_field(&mut line, l2, v2);
        health.inconsistent_node_samples.push(line);
    }
}

fn max_u64(a: u64, b: u64) -> (r: u64)
    ensures
        r == (if a >= b { a } else { b }),
{
    if a >= b { a } else { b }
}

/// The health walk's tally of one node: the keys seen afterwards, the
/// repeated keys met and the distinct directories (other than the scan
/// root) counted. A node whose key was seen before counts once as a repeat
/// and its subtree is not entered.
pub open spec fn walk_tally(n: DirectoryNode, seen: Set<Seq<char>>, root: Seq<char>) -> (Set<Seq<char>>, nat, nat)
    decreases n, 1int, 0int,
{
    let k = path_key(n.path@);
    if seen.contains(k) {
        (seen, 1, 0)
    } else {
        proof {
            assert(decreases_to!(n => n.children));
        }
        let t = tally_upto(n.children@, seen.insert(k), root, n.children@.len() as int);
        (t.0, t.1, t.2 + (if path_text(n.path@) == path_text(root) { 0nat } else { 1nat }))
    }
}

/// [`walk_tally`] over the first `i` nodes of a list, in order.
pub open spec fn tally_upto(s: Seq<DirectoryNode>, seen: Set<Seq<char>>, root: Seq<char>, i: int) -> (
    Set<Seq<char>>,
    nat,
    nat,
)
    decreases s, 0int, i,
{
    if i <= 0 || i > s.len() {
        (seen, 0, 0)
    } else {
        let a = tally_upto(s, seen, root, i - 1);
        proof {
            assert(decreases_to!(s => s[i - 1]));
        }
        let b = walk_tally(s[i - 1], a.0, root);
        (b.0, a.1 + b.1, a.2 + b.2)
    }
}

/// What the health walk of a node hands its parent: nothing for a key seen
/// before; otherwise the node's size and file count, and its directory
/// count as one plus its children's (none for the scan root's own node).
pub open spec fn walk_ret(n: DirectoryNode, seen: Set<Seq<char>>, root: Seq<char>) -> (u64, usize, usize)
    decreases n, 1int, 0int,
{
    let k = path_key(n.path@);
    if seen.contains(k) {
        (0u64, 0usize, 0usize)
    } else {
        proof {
            assert(decreases_to!(n => n.children));
        }
        let sums = sums_upto(n.children@, seen.insert(k), root, n.children@.len() as int);
        (
            n.size,
            n.file_count,
            if path_text(n.path@) == path_text(root) { 0usize } else { sat_usize(sums.2 + 1) as usize },
        )
    }
}

/// The saturated sums of what the walk of the first `i` nodes of a list
/// hands back, walked in order.
pub open spec fn sums_upto(s: Seq<DirectoryNode>, seen: Set<Seq<char>>, root: Seq<char>, i: int) -> (u64, usize, usize)
    decreases s, 0int, i,
{
    if i <= 0 || i > s.len() {
        (0u64, 0usize, 0usize)
    } else {
        let a = sums_upto(s, seen, root, i - 1);
        proof {
            assert(decreases_to!(s => s[i - 1]));
        }
        let b = walk_ret(s[i - 1], tally_upto(s, seen, root, i - 1).0, root);
        (sat_u64(a.0 + b.0) as u64, sat_usize(a.1 + b.1) as usize, sat_usize(a.2 + b.2) as usize)
    }
}

/// How many of its totals a walked node has out of line with its
/// children's sums `sums`: its directory count against one plus theirs
/// (not for the scan root; tolerance a fiftieth, at least two), its size
/// and file count when below theirs (tolerance a fiftieth, at least 1 MiB
/// and eight files).
pub open spec fn node_notes(n: DirectoryNode, sums: (u64, usize, usize), is_root: bool) -> nat {
    let expected = sat_usize(sums.2 + 1);
    let dir_diff = if n.dir_count >= expected { n.dir_count - expected } else { expected - n.dir_count };
    let dir_tol = if expected / 50 >= 2 { expected / 50 } else { 2 };
    let size_tol = if sums.0 / 50 >= 1048576 { sums.0 / 50 } else { 1048576 };
    let file_tol = if sums.1 / 50 >= 8 { sums.1 / 50 } else { 8 };
    (if !is_root && dir_diff > dir_tol { 1nat } else { 0nat }) + (if n.size < sums.0 && sums.0 - n.size > size_tol {
        1nat
    } else {
        0nat
    }) + (if n.file_count < sums.1 && sums.1 - n.file_count > file_tol { 1nat } else { 0nat })
}

/// The inconsistencies the health walk notes at and below a node.
pub open spec fn walk_notes(n: DirectoryNode, seen: Set<Seq<char>>, root: Seq<char>) -> nat
    decreases n, 1int, 0int,
{
    let k = path_key(n.path@);
    if seen.contains(k) {
        0
    } else {
        proof {
            assert(decreases_to!(n => n.children));
        }
        let len = n.children@.len() as int;
        notes_upto(n.children@, seen.insert(k), root, len) + node_notes(
            n,
            sums_upto(n.children@, seen.insert(k), root, len),
            path_text(n.path@) == path_text(root),
        )
    }
}

/// [`walk_notes`] over the first `i` nodes of a list, walked in order.
pub open spec fn notes_upto(s: Seq<DirectoryNode>, seen: Set<Seq<char>>, root: Seq<char>, i: int) -> nat
    decreases s, 0int, i,
{
    if i <= 0 || i > s.len() {
        0
    } else {
        proof {
            assert(decreases_to!(s => s[i - 1]));
        }
        notes_upto(s, seen, root, i - 1) + walk_notes(s[i - 1], tally_upto(s, seen, root, i - 1).0, root)
    }
}

/// Walks one node for the health report: a key seen before counts as a
/// duplicate and contributes nothing; otherwise the node's directory count
/// is checked against one plus its children's (tolerance: a fiftieth, at
/// least two), and its size and file count against its children's when they
/// are smaller (tolerance: a fiftieth, at least 1 MiB and eight files).
/// Returns the node's (size, files, directories counted for its parent).
fn health_walk(
    node: &DirectoryNode,
    root_path: &str,
    seen: &mut StringHashMap<()>,
    health: &mut TreeMergeHealth,
) -> (r: (u64, usize, usize))
    requires
        health_samples_bounded(*old(health)),
    ensures
        health_samples_bounded(*final(health)),
        final(health).orphan_root_count == old(health).orphan_root_count,
        final(health).orphan_root_samples == old(health).orphan_root_samples,
        old(seen)@.dom().contains(path_key(node.path@)) ==> r == (0u64, 0usize, 0usize) && final(seen)@ == old(seen)@
            && final(health).duplicate_paths == sat_usize(old(health).duplicate_paths + 1),
        !old(seen)@.dom().contains(path_key(node.path@)) ==> r.0 == node.size && r.1 == node.file_count,
        r == walk_ret(*node, old(seen)@.dom(), root_path@),
        final(health).inconsistent_node_count == sat_usize(
            old(health).inconsistent_node_count + walk_notes(*node, old(seen)@.dom(), root_path@),
        ),
        final(seen)@.dom().contains(path_key(node.path@)),
        forall|k: Seq<char>| old(seen)@.dom().contains(k) ==> #[trigger] final(seen)@.dom().contains(k),
        final(seen)@.dom() == walk_tally(*node, old(seen)@.dom(), root_path@).0,
        final(health).duplicate_paths == sat_usize(
            old(health).duplicate_paths + walk_tally(*node, old(seen)@.dom(), root_path@).1,
        ),
        final(health).unique_dir_nodes == sat_usize(
            old(health).unique_dir_nodes + walk_tally(*node, old(seen)@.dom(), root_path@).2,
        ),
    decreases *node,
{
    let node_key = normalized_path_key_str(node.path.as_str());
    if seen.contains_key(node_key.as_str()) {
        health.duplicate_paths = health.duplicate_paths.saturating_add(1);
        return (0, 0, 0);
    }
    seen.insert(node_key, ());
    let mut child_size_sum: u64 = 0;
    let mut child_file_sum: usize = 0;
    let mut child_dir_sum: usize = 0;
    let mut i: usize = 0;
    while i < node.children.len()
        invariant
            i <= node.children.len(),
            health_samples_bounded(*health),
            health.orphan_root_count == old(health).orphan_root_count,
            health.orphan_root_samples == old(health).orphan_root_samples,
            node_key@ == path_key(node.path@),
            seen@.dom().contains(node_key@),
            !old(seen)@.dom().contains(node_key@),
            forall|k: Seq<char>| old(seen)@.dom().contains(k) ==> #[trigger] seen@.dom().contains(k),
            seen@.dom() == tally_upto(node.children@, old(seen)@.dom().insert(node_key@), root_path@, i as int).0,
            health.duplicate_paths == sat_usize(
                old(health).duplicate_paths + tally_upto(
                    node.children@,
                    old(seen)@.dom().insert(node_key@),
                    root_path@,
                    i as int,
                ).1,
            ),
            health.unique_dir_nodes == sat_usize(
                old(health).unique_dir_nodes + tally_upto(
                    node.children@,
                    old(seen)@.dom().insert(node_key@),
                    root_path@,
                    i as int,
                ).2,
            ),
            (child_size_sum, child_file_sum, child_dir_sum) == sums_upto(
                node.children@,
                old(seen)@.dom().insert(node_key@),
                root_path@,
                i as int,
            ),
            health.inconsistent_node_count == sat_usize(
                old(health).inconsistent_node_count + notes_upto(
                    node.children@,
                    old(seen)@.dom().insert(node_key@),
                    root_path@,
                    i as int,
                ),
            ),
        decreases node.children.len() - i,
    {
        assert(decreases_to!(*node => node.children@[i as int]));
        let (size, files, dirs) = health_walk(&node.children[i], root_path, seen, health);
        child_size_sum = child_size_sum.saturating_add(size);
        child_file_sum = child_file_sum.saturating_add(files);
        child_dir_sum = child_dir_sum.saturating_add(dirs);
        i = i + 1;
    }
    let is_root = same_path_text(node.path.as_str(), root_path);
    let ghost count0 = health.inconsistent_node_count;
    let ghost sums = (child_size_sum, child_file_sum, child_dir_sum);
    let ghost notes = node_notes(*node, sums, is_root);
    if !is_root {
        health.unique_dir_nodes = health.unique_dir_nodes.saturating_add(1);
        let expected = child_dir_sum.saturating_add(1);
        let dir_diff = if node.dir_count >= expected { node.dir_count - expected } else { expected - node.dir_count };
        let dir_tolerance = if expected / 50 >= 2 { expected / 50 } else { 2 };
        if dir_diff > dir_tolerance {
            note_inconsistent(health, node.path.as_str(), "dir_count", node.dir_count as u64, "expected", expected as u64);
        }
    }
    if node.size < child_size_sum {
        let diff = child_size_sum - node.size;
        let tolerance = max_u64(child_size_sum / 50, 1024 * 1024);
        if diff > tolerance {
            note_inconsistent(health, node.path.as_str(), "size", node.size, "child_sum", child_size_sum);
        }
    }
    if node.file_count < child_file_sum {
        let diff = child_file_sum - node.file_count;
        let tolerance = if child_file_sum / 50 >= 8 { child_file_sum / 50 } else { 8 };
        if diff > tolerance {
            note_inconsistent(
                health,
                node.path.as_str(),
                "file_count",
                node.file_count as u64,
                "child_sum",
                child_file_sum as u64,
            );
        }
    }
    assert(health.inconsistent_node_count == sat_usize(count0 + notes));
    let dir_total: usize = if is_root { 0 } else { child_dir_sum.saturating_add(1) };
    (node.size, node.file_count, dir_total)
}

/// Diagnoses a merged forest: counts distinct directories, repeated keys,
/// top-level nodes that do not hang directly under the scan root, and
/// nodes whose totals disagree with their children beyond a tolerance,
/// keeping at most five samples of each kind.
pub fn inspect_tree_merge_health(nodes: &Vec<DirectoryNode>, root_path: &str) -> (r: TreeMergeHealth)
    ensures
        health_samples_bounded(r),
        r.orphan_root_count == sat_usize(orphan_count(nodes@, root_path@)),
        r.orphan_root_samples@.len() <= r.orphan_root_count,
        r.duplicate_paths == sat_usize(tally_upto(nodes@, Set::empty(), root_path@, nodes@.len() as int).1 as int),
        r.unique_dir_nodes == sat_usize(tally_upto(nodes@, Set::empty(), root_path@, nodes@.len() as int).2 as int),
        r.inconsistent_node_count == sat_usize(notes_upto(nodes@, Set::empty(), root_path@, nodes@.len() as int) as int),
{
    let root_key = normalized_path_key_str(root_path);
    let mut health = TreeMergeHealth::default();
    let mut seen: StringHashMap<()> = StringHashMap::new();
    let mut i: usize = 0;
    while i < nodes.len()
        invariant
            i <= nodes.len(),
            root_key@ == path_key(root_path@),
            health_samples_bounded(health),
            health.orphan_root_count == sat_usize(orphan_count(nodes@.take(i as int), root_path@)),
            health.orphan_root_samples@.len() <= health.orphan_root_count,
            seen@.dom() == tally_upto(nodes@, Set::empty(), root_path@, i as int).0,
            health.duplicate_paths == sat_usize(tally_upto(nodes@, Set::empty(), root_path@, i as int).1 as int),
            health.unique_dir_nodes == sat_usize(tally_upto(nodes@, Set::empty(), root_path@, i as int).2 as int),
            health.inconsistent_node_count == sat_usize(notes_upto(nodes@, Set::empty(), root_path@, i as int) as int),
        decreases nodes.len() - i,
    {
        let node = &nodes[i];
        let is_root = same_path_text(node.path.as_str(), root_path);
        let mut orphan = false;
        if !is_root {
            let is_direct_child = match parent_path(node.path.as_str()) {
                Some(p) => {
                    let pk = normalized_path_key_str(p.as_str());
                    str_eq(pk.as_str(), root_key.as_str())
                },
                None => false,
            };
            if !is_direct_child {
                orphan = true;
                health.orphan_root_count = health.orphan_root_count.saturating_add(1);
                if health.orphan_root_samples.len() < HEALTH_SAMPLE_LIMIT {
                    health.orphan_root_samples.push(crate::text::owned(node.path.as_str()));
                }
            }
        }
        proof {
            let t = nodes@.take(i as int + 1);
            assert(t.drop_last() =~= nodes@.take(i as int));
            assert(t.last() == nodes@[i as int]);
            assert(orphan == is_orphan_root(nodes@[i as int], root_path@));
            lemma_orphan_count_nonneg(nodes@.take(i as int), root_path@);
        }
        let _ = health_walk(node, root_path, &mut seen, &mut health);
        i = i + 1;
    }
    assert(nodes@.take(nodes.len() as int) =~= nodes@);
    health
}

proof fn lemma_orphan_count_nonneg(s: Seq<DirectoryNode>, root_path: Seq<char>)
    ensures
        orphan_count(s, root_path) >= 0,
    decreases s.len(),
{
    if s.len() > 0 {
        lemma_orphan_count_nonneg(s.drop_last(), root_path);
    }
}


// ---------------------------------------------------------------------------
// Large files after an incremental scan
// ---------------------------------------------------------------------------

/// The key of the directory that holds a file, if its path has one.
pub open spec fn holder_key(p: Seq<char>) -> Option<Seq<char>> {
    match parent_path_spec(p) {
        Some(q) => Some(path_key(q)),
        None => None,
    }
}

/// A file keyed `fk`, held by the directory keyed `hk`, lies in a rescanned
/// scope: anywhere below a recursively rescanned directory, or directly in
/// a directory whose own files were refreshed.
pub open spec fn in_rescan_scope(fk: Seq<char>, hk: Option<Seq<char>>, scope_key: Seq<char>, mode: RescanMode) -> bool {
    match mode {
        RescanMode::Recursive => key_below_or_at(fk, scope_key),
        RescanMode::DirectFilesOnly => hk == Some(scope_key),
    }
}

/// A cached large file stays after an incremental scan: it lies at or below
/// no deleted path, in no rescanned scope, and not directly in the scan
/// root when the root's own files changed.
pub open spec fn large_file_stays(
    f: FileInfo,
    deleted: Seq<String>,
    scopes: Seq<(String, RescanMode)>,
    root_files_changed: bool,
    root_path: Seq<char>,
) -> bool {
    let fk = path_key(f.path@);
    let hk = holder_key(f.path@);
    &&& forall|q: int| 0 <= q < deleted.len() ==> !key_below_or_at(fk, path_key(#[trigger] deleted[q]@))
    &&& forall|q: int|
        0 <= q < scopes.len() ==> !in_rescan_scope(fk, hk, path_key((#[trigger] scopes[q]).0@), scopes[q].1)
    &&& root_files_changed ==> hk != Some(path_key(root_path))
}

fn large_file_stays_exec(
    f: &FileInfo,
    deleted_keys: &Vec<String>,
    scope_keys: &Vec<(String, RescanMode)>,
    root_files_changed: bool,
    root_key: &str,
    Ghost(deleted): Ghost<Seq<String>>,
    Ghost(scopes): Ghost<Seq<(String, RescanMode)>>,
    Ghost(root_path): Ghost<Seq<char>>,
) -> (r: bool)
    requires
        deleted_keys@.len() == deleted.len(),
        forall|q: int| 0 <= q < deleted.len() ==> #[trigger] deleted_keys@[q]@ == path_key(deleted[q]@),
        scope_keys@.len() == scopes.len(),
        forall|q: int|
            0 <= q < scopes.len() ==> (#[trigger] scope_keys@[q]).0@ == path_key(scopes[q].0@) && scope_keys@[q].1
                == scopes[q].1,
        root_key@ == path_key(root_path),
    ensures
        r == large_file_stays(*f, deleted, scopes, root_files_changed, root_path),
{
    let fk = normalized_path_key_str(f.path.as_str());
    let hk: Option<String> = match parent_path(f.path.as_str()) {
        Some(p) => Some(normalized_path_key_str(p.as_str())),
        None => None,
    };
    assert(hk matches Some(h) ==> holder_key(f.path@) == Some(h@));
    assert(hk is None ==> holder_key(f.path@) is None);
    let mut q: usize = 0;
    while q < deleted_keys.len()
        invariant
            q <= deleted_keys.len(),
            fk@ == path_key(f.path@),
            deleted_keys@.len() == deleted.len(),
            forall|j: int| 0 <= j < deleted.len() ==> #[trigger] deleted_keys@[j]@ == path_key(deleted[j]@),
            forall|j: int| 0 <= j < q ==> !key_below_or_at(fk@, path_key(#[trigger] deleted[j]@)),
        decreases deleted_keys.len() - q,
    {
        if key_starts_with(fk.as_str(), deleted_keys[q].as_str()) {
            assert(key_below_or_at(fk@, path_key(deleted[q as int]@)));
            return false;
        }
        q = q + 1;
    }
    let mut s: usize = 0;
    while s < scope_keys.len()
        invariant
            s <= scope_keys.len(),
            fk@ == path_key(f.path@),
            hk matches Some(h) ==> holder_key(f.path@) == Some(h@),
            hk is None ==> holder_key(f.path@) is None,
            scope_keys@.len() == scopes.len(),
            forall|j: int|
                0 <= j < scopes.len() ==> (#[trigger] scope_keys@[j]).0@ == path_key(scopes[j].0@) && scope_keys@[j].1
                    == scopes[j].1,
            forall|j: int|
                0 <= j < s ==> !in_rescan_scope(fk@, holder_key(f.path@), path_key((#[trigger] scopes[j]).0@), scopes[j].1),
        decreases scope_keys.len() - s,
    {
        let hit = match scope_keys[s].1 {
            RescanMode::Recursive => key_starts_with(fk.as_str(), scope_keys[s].0.as_str()),
            RescanMode::DirectFilesOnly => match &hk {
                Some(h) => str_eq(h.as_str(), scope_keys[s].0.as_str()),
                None => false,
            },
        };
        assert(hit == in_rescan_scope(fk@, holder_key(f.path@), path_key(scopes[s as int].0@), scopes[s as int].1));
        if hit {
            return false;
        }
        s = s + 1;
    }
    if root_files_changed {
        match &hk {
            Some(h) => {
                if str_eq(h.as_str(), root_key) {
                    return false;
                }
            },
            None => {},
        }
    }
    true
}

/// The large files after an incremental scan: the cached ones that stay
/// (see [`large_file_stays`]), then those the rescans found, then, when the
/// root's own files changed, those found directly in the root; largest
/// first.
pub fn rebuild_large_files(
    cached: Vec<FileInfo>,
    deleted_paths: &Vec<String>,
    scopes: &Vec<(String, RescanMode)>,
    root_files_changed: bool,
    root_path: &str,
    rescanned: Vec<FileInfo>,
    root_large: Vec<FileInfo>,
) -> (r: Vec<FileInfo>)
    ensures
        files_sorted_desc(r@),
        r@.to_multiset() == cached@.filter(
            |f: FileInfo| large_file_stays(f, deleted_paths@, scopes@, root_files_changed, root_path@),
        ).to_multiset().add(rescanned@.to_multiset()).add(
            if root_files_changed {
                root_large@.to_multiset()
            } else {
                Multiset::empty()
            },
        ),
{
    let ghost pred = |f: FileInfo| large_file_stays(f, deleted_paths@, scopes@, root_files_changed, root_path@);
    let mut deleted_keys: Vec<String> = Vec::new();
    let mut q: usize = 0;
    while q < deleted_paths.len()
        invariant
            q <= deleted_paths.len(),
            deleted_keys@.len() == q,
            forall|j: int| 0 <= j < q ==> #[trigger] deleted_keys@[j]@ == path_key(deleted_paths@[j]@),
        decreases deleted_paths.len() - q,
    {
        deleted_keys.push(normalized_path_key_str(deleted_paths[q].as_str()));
        q = q + 1;
    }
    let mut scope_keys: Vec<(String, RescanMode)> = Vec::new();
    let mut s: usize = 0;
    while s < scopes.len()
        invariant
            s <= scopes.len(),
            scope_keys@.len() == s,
            forall|j: int|
                0 <= j < s ==> (#[trigger] scope_keys@[j]).0@ == path_key(scopes@[j].0@) && scope_keys@[j].1
                    == scopes@[j].1,
        decreases scopes.len() - s,
    {
        scope_keys.push((normalized_path_key_str(scopes[s].0.as_str()), scopes[s].1));
        s = s + 1;
    }
    let root_key = normalized_path_key_str(root_path);
    let ghost all = cached@;
    assert(all.len() == cached.len());
    let mut rest = cached;
    let mut out: Vec<FileInfo> = Vec::new();
    let mut k: usize = 0;
    while rest.len() > 0
        invariant
            k + rest@.len() == all.len(),
            all.len() <= usize::MAX,
            rest@ == all.skip(k as int),
            out@ == all.take(k as int).filter(pred),
            deleted_keys@.len() == deleted_paths@.len(),
            forall|j: int| 0 <= j < deleted_paths@.len() ==> #[trigger] deleted_keys@[j]@ == path_key(deleted_paths@[j]@),
            scope_keys@.len() == scopes@.len(),
            forall|j: int|
                0 <= j < scopes@.len() ==> (#[trigger] scope_keys@[j]).0@ == path_key(scopes@[j].0@) && scope_keys@[j].1
                    == scopes@[j].1,
            root_key@ == path_key(root_path@),
            pred == (|f: FileInfo| large_file_stays(f, deleted_paths@, scopes@, root_files_changed, root_path@)),
        decreases rest.len(),
    {
        let f = rest.remove(0);
        proof {
            assert(f == all[k as int]);
            assert(rest@ =~= all.skip(k as int + 1));
            assert(all.take(k as int + 1).drop_last() =~= all.take(k as int));
            assert(all.take(k as int + 1).last() == all[k as int]);
            reveal_with_fuel(Seq::filter, 1);
        }
        let stays = large_file_stays_exec(
            &f,
            &deleted_keys,
            &scope_keys,
            root_files_changed,
            root_key.as_str(),
            Ghost(deleted_paths@),
            Ghost(scopes@),
            Ghost(root_path@),
        );
        if stays {
            out.push(f);
        }
        k = k + 1;
    }
    assert(all.take(all.len() as int) =~= all);
    let ghost kept = out@;
    let mut rescanned = rescanned;
    let ghost resc = rescanned@;
    out.append(&mut rescanned);
    proof {
        vstd::seq_lib::lemma_multiset_commutative(kept, resc);
    }
    let ghost mid = out@;
    if root_files_changed {
        let mut root_large = root_large;
        let ghost rl = root_large@;
        out.append(&mut root_large);
        proof {
            vstd::seq_lib::lemma_multiset_commutative(mid, rl);
        }
    } else {
        proof {
            assert(mid.to_multiset().add(Multiset::empty()) =~= mid.to_multiset());
        }
    }
    sort_files_by_size_desc(&mut out);
    out
}

} // verus!

