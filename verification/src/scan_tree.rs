//! Assembling the directory tree of a scan from what a walk of the file
//! system found: every directory becomes a node under its parent, every
//! directory's totals are what its own files hold plus its children's, and
//! every level is ordered by size.
use vstd::prelude::*;
use vstd::hash_map::StringHashMap;
use crate::env_fingerprint::EnvFingerprint;
use crate::file_info::{files_sorted_desc, sort_files_by_size_desc, DirectoryNode, FileInfo, ScanResult};
use crate::incremental_plan::UsnCheckpoint;
use crate::incremental::{
    entry_nodes, is_root_files_node, kept_non_root, RescanMode, parent_path, parent_path_spec, rebuild_tree,
    recalc_subtotals_authoritative, same_shape, upsert_root_files_node, with_fresh_flag,
};
use crate::path_utils::{normalized_path_key_str, path_key};
use crate::tree::{
    child_totals, forest_count, key_count, lemma_forest_count_sum, lemma_key_count_sum, lemma_tree_ok_forall, sat_u64,
    sat_usize, sort_directory_tree, sorted_by_size, sum_dirs, sum_files, sum_size, totals_ok, tree_ok, tree_sorted,
};

verus! {

/// The own-files table before any file is counted: every walked directory
/// (the first `n`) holds nothing of its own.
pub open spec fn empty_own_table(dirs: Seq<DirectoryNode>, n: int) -> Map<Seq<char>, (u64, usize)>
    decreases n,
{
    if n <= 0 || n > dirs.len() {
        Map::empty()
    } else {
        empty_own_table(dirs, n - 1).insert(path_key(dirs[n - 1].path@), (0u64, 0usize))
    }
}

/// The table after counting the first `n` files: each file adds its size
/// and one file to the entry of the directory that holds it (saturating).
pub open spec fn count_files(
    table: Map<Seq<char>, (u64, usize)>,
    files: Seq<(String, u64)>,
    n: int,
) -> Map<Seq<char>, (u64, usize)>
    decreases n,
{
    if n <= 0 || n > files.len() {
        table
    } else {
        let t = count_files(table, files, n - 1);
        match parent_path_spec(files[n - 1].0@) {
            Some(p) => {
                let k = path_key(p);
                let cur: (u64, usize) = if t.contains_key(k) { t[k] } else { (0u64, 0usize) };
                t.insert(k, (sat_u64(cur.0 + files[n - 1].1) as u64, sat_usize(cur.1 + 1) as usize))
            },
            None => t,
        }
    }
}

/// What every walked directory holds of its own: the size and number of
/// the files directly in it.
pub open spec fn own_table(dirs: Seq<DirectoryNode>, files: Seq<(String, u64)>) -> Map<Seq<char>, (u64, usize)> {
    count_files(empty_own_table(dirs, dirs.len() as int), files, files.len() as int)
}

proof fn lemma_own_table_has_dirs(dirs: Seq<DirectoryNode>, files: Seq<(String, u64)>, n: int, m: int)
    requires
        0 <= m <= files.len(),
        0 <= n < dirs.len(),
    ensures
        count_files(empty_own_table(dirs, dirs.len() as int), files, m).contains_key(path_key(dirs[n].path@)),
    decreases dirs.len() - n, m,
{
    if m > 0 {
        lemma_own_table_has_dirs(dirs, files, n, m - 1);
    } else {
        lemma_empty_table_has(dirs, dirs.len() as int, n);
    }
}

proof fn lemma_empty_table_has(dirs: Seq<DirectoryNode>, len: int, n: int)
    requires
        0 <= n < len <= dirs.len(),
    ensures
        empty_own_table(dirs, len).contains_key(path_key(dirs[n].path@)),
    decreases len,
{
    if n < len - 1 {
        lemma_empty_table_has(dirs, len - 1, n);
    }
}

/// The tree of a walk: the directories `dirs` (as found, usually without
/// children) placed under their parents, the scan root's direct
/// subdirectories at the top; every directory's totals are its own files'
/// (see [`own_table`]) plus its children's; every level is ordered by size.
/// Every walked directory is in the tree, once per time it was walked.
pub fn assemble_scan_tree(root_path: &str, dirs: Vec<DirectoryNode>, files: &Vec<(String, u64)>) -> (r: Vec<
    DirectoryNode,
>)
    ensures
        sorted_by_size(r@),
        tree_sorted(r@),
        tree_ok(r@, own_table(dirs@, files@), Map::empty()),
        forest_count(r@) == forest_count(dirs@),
        forall|k: Seq<char>| #[trigger] key_count(r@, k) == key_count(dirs@, k),
        forall|j: int| 0 <= j < dirs@.len() ==> #[trigger] own_table(dirs@, files@).contains_key(
            path_key(dirs@[j].path@),
        ),
{
    let ghost dv = dirs@;
    // the own-files table
    let mut own: StringHashMap<(u64, usize)> = StringHashMap::new();
    let mut d: usize = 0;
    while d < dirs.len()
        invariant
            d <= dirs.len(),
            dv == dirs@,
            own@ == empty_own_table(dv, d as int),
        decreases dirs.len() - d,
    {
        own.insert(normalized_path_key_str(dirs[d].path.as_str()), (0, 0));
        d = d + 1;
    }
    let mut f: usize = 0;
    while f < files.len()
        invariant
            f <= files.len(),
            own@ == count_files(empty_own_table(dv, dv.len() as int), files@, f as int),
        decreases files.len() - f,
    {
        match parent_path(files[f].0.as_str()) {
            Some(p) => {
                let k = normalized_path_key_str(p.as_str());
                let cur: (u64, usize) = match own.get(k.as_str()) {
                    Some(v) => *v,
                    None => (0, 0),
                };
                own.insert(k, (cur.0.saturating_add(files[f].1), cur.1.saturating_add(1)));
            },
            None => {},
        }
        f = f + 1;
    }
    let ghost ov = own@;
    assert(ov == own_table(dv, files@));
    // the table of nodes, each filed under its key
    let mut table: Vec<(String, DirectoryNode)> = Vec::new();
    let mut rest = dirs;
    let mut rev: Vec<DirectoryNode> = Vec::new();
    while rest.len() > 0
        invariant
            rest@ == dv.take(rest@.len() as int),
            rev@.len() + rest@.len() == dv.len(),
            forall|j: int| 0 <= j < rev@.len() ==> #[trigger] rev@[j] == dv[dv.len() - 1 - j],
        decreases rest.len(),
    {
        let ghost r0 = rest@;
        let x = rest.pop().unwrap();
        proof {
            assert(x == dv[r0.len() - 1]);
            assert(rest@ =~= dv.take(rest@.len() as int));
        }
        rev.push(x);
    }
    while rev.len() > 0
        invariant
            entry_nodes(table@) == dv.take(table@.len() as int),
            rev@.len() + table@.len() == dv.len(),
            forall|j: int| 0 <= j < rev@.len() ==> #[trigger] rev@[j] == dv[dv.len() - 1 - j],
        decreases rev.len(),
    {
        let ghost r0 = rev@;
        let ghost t0 = table@;
        let node = rev.pop().unwrap();
        proof {
            assert(node == r0[r0.len() - 1]);
            assert(node == dv[t0.len() as int]);
        }
        let key = normalized_path_key_str(node.path.as_str());
        table.push((key, node));
        proof {
            assert(entry_nodes(table@) =~= entry_nodes(t0).push(node));
            assert(entry_nodes(table@) =~= dv.take(table@.len() as int));
        }
    }
    assert(entry_nodes(table@) =~= dv);
    let mut tree = rebuild_tree(table, root_path);
    proof {
        lemma_forest_count_sum(dv);
        assert forall|k: Seq<char>| #[trigger] key_count(tree@, k) == key_count(dv, k) by {
            lemma_key_count_sum(dv, k);
        }
    }
    // totals, bottom-up
    let ghost before = tree@;
    assert(forall|k: Seq<char>| #[trigger] key_count(before, k) == key_count(dv, k));
    let ghost e = Map::<Seq<char>, (u64, usize)>::empty();
    let mut i: usize = 0;
    while i < tree.len()
        invariant
            i <= tree.len(),
            tree@.len() == before.len(),
            ov == own@,
            e == Map::<Seq<char>, (u64, usize)>::empty(),
            forall|j: int| i <= j < before.len() ==> tree@[j] == before[j],
            forall|j: int| 0 <= j < i ==> (#[trigger] tree_ok(tree@[j].children@, ov, e) && totals_ok(
                tree@[j],
                ov,
                e,
            )),
            forall|j: int| 0 <= j < i ==> #[trigger] same_shape(before[j], tree@[j]),
        decreases tree.len() - i,
    {
        let empty: StringHashMap<(u64, usize)> = StringHashMap::new();
        let ghost t0 = tree@;
        recalc_subtotals_authoritative(&mut tree[i], &own, &empty);
        assert forall|j: int| 0 <= j < t0.len() && j != i implies tree@[j] == t0[j] by {}
        i = i + 1;
    }
    proof {
        lemma_tree_ok_forall(tree@, ov, e);
        assert forall|j: int| 0 <= j < before.len() implies #[trigger] same_shape(before[j], tree@[j]) by {}
        crate::incremental::lemma_same_shape_sums(before, tree@);
    }
    let ghost pre_sort = tree@;
    sort_directory_tree(&mut tree);
    proof {
        assert forall|k: Seq<char>| #[trigger] key_count(tree@, k) == key_count(dv, k) by {
            assert(key_count(tree@, k) == key_count(pre_sort, k));
            assert(key_count(pre_sort, k) == key_count(before, k));
            assert(key_count(before, k) == key_count(dv, k));
        }
        assert forall|j: int| 0 <= j < dv.len() implies #[trigger] own_table(dv, files@).contains_key(
            path_key(dv[j].path@),
        ) by {
            lemma_own_table_has_dirs(dv, files@, j, files@.len() as int);
        }
    }
    tree
}

/// The size and number of the first `n` files that lie directly in the
/// directory keyed `k`.
pub open spec fn files_in_dir(files: Seq<(String, u64)>, k: Seq<char>, n: int) -> (int, int)
    decreases n,
{
    if n <= 0 || n > files.len() {
        (0, 0)
    } else {
        let a = files_in_dir(files, k, n - 1);
        match parent_path_spec(files[n - 1].0@) {
            Some(p) => if path_key(p) == k {
                (a.0 + files[n - 1].1, a.1 + 1)
            } else {
                a
            },
            None => a,
        }
    }
}

/// The total size of the first `n` files.
pub open spec fn files_size(files: Seq<(String, u64)>, n: int) -> int
    decreases n,
{
    if n <= 0 || n > files.len() {
        0
    } else {
        files_size(files, n - 1) + files[n - 1].1
    }
}

proof fn lemma_kept_non_root_from(s: Seq<DirectoryNode>, rk: Seq<char>)
    ensures
        forall|x: DirectoryNode| #[trigger] kept_non_root(s, rk).contains(x) ==> exists|j: int|
            0 <= j < s.len() && x == with_fresh_flag(s[j]),
    decreases s.len(),
{
    if s.len() > 0 {
        lemma_kept_non_root_from(s.drop_last(), rk);
        assert forall|x: DirectoryNode| #[trigger] kept_non_root(s, rk).contains(x) implies exists|j: int|
            0 <= j < s.len() && x == with_fresh_flag(s[j]) by {
            let kd = kept_non_root(s.drop_last(), rk);
            let q = choose|q: int| 0 <= q < kept_non_root(s, rk).len() && kept_non_root(s, rk)[q] == x;
            if path_key(s.last().path@) != rk && q == kd.len() {
                assert(x == with_fresh_flag(s[s.len() - 1]));
            } else {
                assert(kd[q] == x);
                assert(kd.contains(x));
                let j = choose|j: int| 0 <= j < s.drop_last().len() && x == with_fresh_flag(s.drop_last()[j]);
                assert(s[j] == s.drop_last()[j]);
            }
        }
    }
}

/// The result of a scan of `root_path` from what its walk found: the
/// directories (see [`assemble_scan_tree`]), every file (path and size),
/// the large files, the number of entries it could not read, and what the
/// volume reports. Its totals are the files' (saturating), the node of the
/// root's own files is present exactly when the root holds files, the
/// directory count is the top level's, the large files come largest first,
/// and what the volume uses beyond the scanned files is reported as
/// reserved by the system.
pub fn build_scan_result(
    root_path: &str,
    dirs: Vec<DirectoryNode>,
    files: &Vec<(String, u64)>,
    large_files: Vec<FileInfo>,
    inaccessible_count: usize,
    disk_used: Option<u64>,
    checkpoint: Option<UsnCheckpoint>,
    root_file_id: Option<u64>,
    scan_duration_ms: u64,
    scan_backend: Option<String>,
) -> (r: ScanResult)
    ensures
        r.root_path@ == root_path@,
        r.total_size == sat_u64(files_size(files@, files@.len() as int)),
        r.total_files == files@.len(),
        r.system_reserved_bytes == (match disk_used {
            Some(u) => if u > r.total_size { (u - r.total_size) as u64 } else { 0u64 },
            None => 0u64,
        }),
        r.total_dirs == sat_usize(sum_dirs(r.directories@)),
        sorted_by_size(r.directories@),
        tree_sorted(r.directories@),
        ({
            let own = own_table(dirs@, files@);
            let rk = path_key(root_path@);
            let rf = files_in_dir(files@, rk, files@.len() as int);
            &&& forall|i: int| 0 <= i < r.directories@.len() && path_key(r.directories@[i].path@) != rk ==> (
            #[trigger] tree_ok(r.directories@[i].children@, own, Map::empty()) && totals_ok(
                r.directories@[i],
                own,
                Map::empty(),
            ))
            &&& forall|i: int| 0 <= i < r.directories@.len() && path_key(r.directories@[i].path@) == rk
                ==> #[trigger] is_root_files_node(r.directories@[i], root_path@, sat_u64(rf.0) as u64, sat_usize(rf.1) as usize)
            &&& ((rf.0 > 0 || rf.1 > 0) <==> exists|i: int|
                0 <= i < r.directories@.len() && path_key(#[trigger] r.directories@[i].path@) == rk)
        }),
        files_sorted_desc(r.large_files@),
        r.large_files@.to_multiset() == large_files@.to_multiset(),
        r.inaccessible_count == inaccessible_count,
        r.root_file_id == root_file_id,
        r.usn_journal_id == (match checkpoint {
            Some(c) => Some(c.journal_id),
            None => None::<u64>,
        }),
        r.usn_next_usn == (match checkpoint {
            Some(c) => Some(c.next_usn),
            None => None::<i64>,
        }),
        r.scan_duration_ms == scan_duration_ms,
        r.scan_backend == scan_backend,
        r.cache_schema_version == 0,
        !r.scan_completed,
{
    let ghost dv = dirs@;
    let ghost rkv = path_key(root_path@);
    let root_key = normalized_path_key_str(root_path);
    let mut total: u64 = 0;
    let mut root_size: u64 = 0;
    let mut root_files: usize = 0;
    let mut f: usize = 0;
    while f < files.len()
        invariant
            f <= files.len(),
            root_key@ == rkv,
            total == sat_u64(files_size(files@, f as int)),
            root_size == sat_u64(files_in_dir(files@, rkv, f as int).0),
            root_files == sat_usize(files_in_dir(files@, rkv, f as int).1),
            files_in_dir(files@, rkv, f as int).0 >= 0,
            files_in_dir(files@, rkv, f as int).1 >= 0,
            files_size(files@, f as int) >= 0,
        decreases files.len() - f,
    {
        total = total.saturating_add(files[f].1);
        match parent_path(files[f].0.as_str()) {
            Some(p) => {
                let k = normalized_path_key_str(p.as_str());
                if crate::text::str_eq(k.as_str(), root_key.as_str()) {
                    root_size = root_size.saturating_add(files[f].1);
                    root_files = root_files.saturating_add(1);
                }
            },
            None => {},
        }
        f = f + 1;
    }
    let mut tree = assemble_scan_tree(root_path, dirs, files);
    let ghost assembled = tree@;
    let ghost own = own_table(dv, files@);
    let ghost e = Map::<Seq<char>, (u64, usize)>::empty();
    proof {
        lemma_tree_ok_forall(assembled, own, e);
        lemma_kept_non_root_from(assembled, rkv);
    }
    upsert_root_files_node(&mut tree, root_path, root_size, root_files);
    proof {
        let fin = tree@;
        let kept = kept_non_root(assembled, rkv);
        assert forall|i: int| 0 <= i < fin.len() && path_key(fin[i].path@) != rkv implies (#[trigger] tree_ok(
            fin[i].children@,
            own,
            e,
        ) && totals_ok(fin[i], own, e)) by {
            assert(kept.contains(fin[i]));
            let j = choose|j: int| 0 <= j < assembled.len() && fin[i] == with_fresh_flag(assembled[j]);
            assert(tree_ok(assembled[j].children@, own, e) && totals_ok(assembled[j], own, e));
            assert(fin[i] == assembled[j]);
        }
        assert forall|i: int| 0 <= i < fin.len() implies (#[trigger] tree_sorted(fin[i].children@) && sorted_by_size(
            fin[i].children@,
        )) by {
            if path_key(fin[i].path@) != rkv {
                assert(kept.contains(fin[i]));
                let j = choose|j: int| 0 <= j < assembled.len() && fin[i] == with_fresh_flag(assembled[j]);
                assert(tree_ok(assembled[j].children@, own, e) && totals_ok(assembled[j], own, e));
                assert(fin[i] == assembled[j]);
                crate::tree::lemma_tree_sorted_elim(assembled, j);
            } else {
                assert(is_root_files_node(fin[i], root_path@, root_size, root_files));
                assert(fin[i].children@ =~= Seq::<DirectoryNode>::empty());
            }
        }
        crate::tree::lemma_tree_sorted_intro(fin);
    }
    let mut dir_total: usize = 0;
    let mut t: usize = 0;
    while t < tree.len()
        invariant
            t <= tree.len(),
            dir_total == sat_usize(sum_dirs(tree@.take(t as int))),
            sum_dirs(tree@.take(t as int)) >= 0,
        decreases tree.len() - t,
    {
        proof {
            crate::tree::lemma_sum_take_one(tree@, t as int, |n: DirectoryNode| crate::tree::dirs_of(n));
        }
        dir_total = dir_total.saturating_add(tree[t].dir_count);
        t = t + 1;
    }
    assert(tree@.take(tree@.len() as int) =~= tree@);
    let reserved: u64 = match disk_used {
        Some(u) => u.saturating_sub(total),
        None => 0,
    };
    let mut large = large_files;
    sort_files_by_size_desc(&mut large);
    let (journal, next): (Option<u64>, Option<i64>) = match checkpoint {
        Some(c) => (Some(c.journal_id), Some(c.next_usn)),
        None => (None, None),
    };
    ScanResult {
        root_path: crate::text::owned(root_path),
        total_size: total,
        system_reserved_bytes: reserved,
        total_files: files.len(),
        total_dirs: dir_total,
        scan_duration_ms,
        directories: tree,
        large_files: large,
        inaccessible_count,
        scan_backend,
        root_file_id,
        usn_journal_id: journal,
        usn_next_usn: next,
        cache_schema_version: 0,
        env_fingerprint: EnvFingerprint::default(),
        scan_completed: false,
    }
}

/// A directory rescanned in depth: its node with the subtree below it, the
/// large files found, how it was rescanned, and what the directory itself
/// holds.
pub struct RescannedSubtree {
    pub node: DirectoryNode,
    pub large_files: Vec<FileInfo>,
    pub mode: RescanMode,
    pub own_size: u64,
    pub own_file_count: usize,
}

/// The files of at least `threshold` bytes.
pub open spec fn at_least(files: Seq<FileInfo>, threshold: u64) -> Seq<FileInfo> {
    files.filter(|f: FileInfo| f.size >= threshold)
}

/// The files of at least `threshold` bytes, in their order.
fn keep_large(files: Vec<FileInfo>, threshold: u64) -> (r: Vec<FileInfo>)
    ensures
        r@ == at_least(files@, threshold),
{
    let ghost all = files@;
    assert(all.len() == files.len());
    let mut rest = files;
    let mut out: Vec<FileInfo> = Vec::new();
    let mut k: usize = 0;
    while rest.len() > 0
        invariant
            k + rest@.len() == all.len(),
            all.len() <= usize::MAX,
            rest@ == all.skip(k as int),
            out@ == at_least(all.take(k as int), threshold),
        decreases rest.len(),
    {
        let f = rest.remove(0);
        proof {
            assert(f == all[k as int]);
            assert(rest@ =~= all.skip(k as int + 1));
            assert(all.take(k as int + 1).drop_last() =~= all.take(k as int));
            assert(all.take(k as int + 1).last() == all[k as int]);
            reveal_with_fuel(Seq::filter, 1);
        }
        if f.size >= threshold {
            out.push(f);
        }
        k = k + 1;
    }
    assert(all.take(all.len() as int) =~= all);
    out
}

/// The recursive rescan of the directory `top` from what a walk below it
/// found: the directories under it become its subtree (see
/// [`assemble_scan_tree`]), the files directly in it are its own part, its
/// totals are that own part plus its children's, and of the walked files'
/// details those of at least `large_file_threshold` bytes are its large
/// files, largest first.
pub fn rescanned_subtree(
    top: DirectoryNode,
    dirs: Vec<DirectoryNode>,
    files: &Vec<(String, u64)>,
    file_details: Vec<FileInfo>,
    large_file_threshold: u64,
) -> (r: RescannedSubtree)
    ensures
        r.mode == RescanMode::Recursive,
        ({
            let own = files_in_dir(files@, path_key(top.path@), files@.len() as int);
            let ch = r.node.children@;
            &&& r.own_size == sat_u64(own.0)
            &&& r.own_file_count == sat_usize(own.1)
            &&& r.node.path == top.path
            &&& r.node.name == top.name
            &&& r.node.modified_time == top.modified_time
            &&& r.node.file_id == top.file_id
            &&& r.node.size == sat_u64(r.own_size + sum_size(ch))
            &&& r.node.file_count == sat_usize(r.own_file_count + sum_files(ch))
            &&& r.node.dir_count == sat_usize(1 + sum_dirs(ch))
            &&& r.node.has_children == (ch.len() > 0)
            &&& sorted_by_size(ch)
            &&& tree_sorted(ch)
            &&& tree_ok(ch, own_table(dirs@, files@), Map::empty())
            &&& forall|k: Seq<char>| #[trigger] key_count(ch, k) == key_count(dirs@, k)
        }),
        files_sorted_desc(r.large_files@),
        r.large_files@.to_multiset() == at_least(file_details@, large_file_threshold).to_multiset(),
{
    let ghost tk = path_key(top.path@);
    let key = normalized_path_key_str(top.path.as_str());
    let mut own_size: u64 = 0;
    let mut own_files: usize = 0;
    let mut f: usize = 0;
    while f < files.len()
        invariant
            f <= files.len(),
            key@ == tk,
            own_size == sat_u64(files_in_dir(files@, tk, f as int).0),
            own_files == sat_usize(files_in_dir(files@, tk, f as int).1),
            files_in_dir(files@, tk, f as int).0 >= 0,
            files_in_dir(files@, tk, f as int).1 >= 0,
        decreases files.len() - f,
    {
        match parent_path(files[f].0.as_str()) {
            Some(p) => {
                let k = normalized_path_key_str(p.as_str());
                if crate::text::str_eq(k.as_str(), key.as_str()) {
                    own_size = own_size.saturating_add(files[f].1);
                    own_files = own_files.saturating_add(1);
                }
            },
            None => {},
        }
        f = f + 1;
    }
    let children = assemble_scan_tree(top.path.as_str(), dirs, files);
    let (cs, cf, cd) = child_totals(&children);
    proof {
        crate::tree::lemma_sum_nonneg(children@, |x: DirectoryNode| crate::tree::size_of(x));
        crate::tree::lemma_sum_nonneg(children@, |x: DirectoryNode| crate::tree::files_of(x));
        crate::tree::lemma_sum_nonneg(children@, |x: DirectoryNode| crate::tree::dirs_of(x));
    }
    let mut node = top;
    node.size = own_size.saturating_add(cs);
    node.file_count = own_files.saturating_add(cf);
    node.dir_count = cd.saturating_add(1);
    node.has_children = children.len() > 0;
    node.children = children;
    let mut large = keep_large(file_details, large_file_threshold);
    sort_files_by_size_desc(&mut large);
    RescannedSubtree { node, large_files: large, mode: RescanMode::Recursive, own_size, own_file_count: own_files }
}

} // verus!
