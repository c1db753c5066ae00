//! An index over a finished scan: every directory by key, the children of
//! every directory by key, and a snapshot of any subtree on request.
use vstd::prelude::*;
use vstd::hash_map::StringHashMap;
use crate::env_fingerprint::EnvFingerprint;
use crate::file_info::{
    copy_file_info, copy_opt_string, files_sorted_desc, sort_files_by_size_desc, DirectoryNode, FileInfo,
    ScanResult,
};
use crate::incremental::ROOT_FILES_NODE_NAME;
use crate::safety::{copy_safety_opt, safety_view_opt};
use crate::path_utils::{
    path_components, path_components_start_with, seq_starts_with, utf8_len, utf8_len_exceeds_three,
};
use crate::text::{ascii_lower, chars_of, replace_char, replace_char_str, str_eq, string_from_chars, to_ascii_lowercase};

verus! {

/// Drops trailing backslashes while the text is longer than three bytes.
pub open spec fn strip_long_backslashes(t: Seq<char>) -> Seq<char>
    decreases t.len(),
{
    if t.len() > 0 && t.last() == '\\' && utf8_len(t) > 3 {
        strip_long_backslashes(t.drop_last())
    } else {
        t
    }
}

/// The key under which the index files a path: `/` read as `\`, ASCII
/// letters lowercased, trailing backslashes dropped while longer than three
/// bytes.
pub open spec fn index_key(p: Seq<char>) -> Seq<char> {
    strip_long_backslashes(ascii_lower(replace_char(p, '/', '\\')))
}

/// The index key of a path text.
pub fn index_key_str(path: &str) -> (r: String)
    ensures
        r@ == index_key(path@),
{
    let replaced = replace_char_str(path, '/', '\\');
    let lowered = to_ascii_lowercase(replaced.as_str());
    let mut v = chars_of(lowered.as_str());
    while v.len() > 0 && v[v.len() - 1] == '\\' && utf8_len_exceeds_three(v.as_slice())
        invariant
            strip_long_backslashes(v@) == index_key(path@),
        decreases v.len(),
    {
        let _ = v.pop();
    }
    string_from_chars(v.as_slice())
}

/// A file lies under a directory when the directory's components, letter
/// case ignored, begin the file's.
pub open spec fn file_under(file_path: Seq<char>, dir: Seq<char>) -> bool {
    seq_starts_with(path_components(ascii_lower(file_path)), path_components(ascii_lower(dir)))
}

/// `b` is `a` without its children: every field kept but the children,
/// which are dropped; `has_children` tells whether `a` had any.
pub open spec fn stripped_from(a: DirectoryNode, b: DirectoryNode) -> bool {
    &&& b.path == a.path
    &&& b.name == a.name
    &&& b.size == a.size
    &&& b.file_count == a.file_count
    &&& b.dir_count == a.dir_count
    &&& b.children@.len() == 0
    &&& b.is_symlink == a.is_symlink
    &&& b.link_target == a.link_target
    &&& b.has_children == (a.has_children || a.children@.len() > 0)
    &&& b.modified_time == a.modified_time
    &&& b.file_id == a.file_id
    &&& safety_view_opt(b.safety) == safety_view_opt(a.safety)
}

/// A node without its children.
pub fn strip_node(node: &DirectoryNode) -> (r: DirectoryNode)
    ensures
        stripped_from(*node, r),
{
    DirectoryNode {
        path: node.path.clone(),
        name: node.name.clone(),
        size: node.size,
        file_count: node.file_count,
        dir_count: node.dir_count,
        children: Vec::new(),
        is_symlink: node.is_symlink,
        link_target: copy_opt_string(&node.link_target),
        has_children: node.has_children || node.children.len() > 0,
        safety: copy_safety_opt(&node.safety),
        modified_time: node.modified_time,
        file_id: node.file_id,
    }
}

/// Every node of a list, stripped.
pub fn strip_list(nodes: &Vec<DirectoryNode>) -> (r: Vec<DirectoryNode>)
    ensures
        r@.len() == nodes@.len(),
        forall|i: int| 0 <= i < r@.len() ==> #[trigger] stripped_from(nodes@[i], r@[i]),
{
    let mut out: Vec<DirectoryNode> = Vec::new();
    let mut i: usize = 0;
    while i < nodes.len()
        invariant
            i <= nodes.len(),
            out@.len() == i,
            forall|k: int| 0 <= k < i ==> #[trigger] stripped_from(nodes@[k], out@[k]),
        decreases nodes.len() - i,
    {
        out.push(strip_node(&nodes[i]));
        i = i + 1;
    }
    out
}

/// Whether `node` holds the scan root's own files.
pub open spec fn is_root_files_entry(root_path: Seq<char>, node: DirectoryNode) -> bool {
    index_key(node.path@) == index_key(root_path) && node.name@ == ROOT_FILES_NODE_NAME@
}

fn is_root_files_node(root_path: &str, node: &DirectoryNode) -> (r: bool)
    ensures
        r == is_root_files_entry(root_path@, *node),
{
    let a = index_key_str(node.path.as_str());
    let b = index_key_str(root_path);
    str_eq(a.as_str(), b.as_str()) && str_eq(node.name.as_str(), ROOT_FILES_NODE_NAME)
}

/// The node table: every key maps to a position whose node has that key.
pub open spec fn node_table_ok(nodes: Seq<DirectoryNode>, index: Map<Seq<char>, usize>) -> bool {
    &&& forall|k: Seq<char>| #[trigger] index.contains_key(k) ==> index[k] < nodes.len() && index_key(
        nodes[index[k] as int].path@,
    ) == k
    &&& forall|i: int| 0 <= i < nodes.len() ==> #[trigger] nodes[i].children@.len() == 0
}

/// The child-list table: every key maps to an existing list.
pub open spec fn list_table_ok(lists: Seq<Vec<DirectoryNode>>, index: Map<Seq<char>, usize>) -> bool {
    forall|k: Seq<char>| #[trigger] index.contains_key(k) ==> index[k] < lists.len()
}

fn node_table_put(
    nodes: &mut Vec<DirectoryNode>,
    index: &mut StringHashMap<usize>,
    key: String,
    node: DirectoryNode,
)
    requires
        node_table_ok(old(nodes)@, old(index)@),
        index_key(node.path@) == key@,
        node.children@.len() == 0,
    ensures
        node_table_ok(final(nodes)@, final(index)@),
        final(index)@.contains_key(key@),
        final(nodes)@[final(index)@[key@] as int] == node,
        forall|k: Seq<char>| old(index)@.contains_key(k) ==> #[trigger] final(index)@.contains_key(k),
{
    let found: Option<usize> = match index.get(key.as_str()) {
        Some(p) => Some(*p),
        None => None,
    };
    match found {
        Some(p) => {
            nodes.set(p, node);
        },
        None => {
            let n = nodes.len();
            nodes.push(node);
            index.insert(key, n);
        },
    }
}

fn list_table_put(
    lists: &mut Vec<Vec<DirectoryNode>>,
    index: &mut StringHashMap<usize>,
    key: String,
    list: Vec<DirectoryNode>,
)
    requires
        list_table_ok(old(lists)@, old(index)@),
    ensures
        list_table_ok(final(lists)@, final(index)@),
        final(index)@.contains_key(key@),
        final(lists)@[final(index)@[key@] as int]@ == list@,
        forall|k: Seq<char>| old(index)@.contains_key(k) ==> #[trigger] final(index)@.contains_key(k),
{
    let found: Option<usize> = match index.get(key.as_str()) {
        Some(p) => Some(*p),
        None => None,
    };
    match found {
        Some(p) => {
            lists.set(p, list);
        },
        None => {
            let n = lists.len();
            lists.push(list);
            index.insert(key, n);
        },
    }
}

/// Every node of the forest other than the root's own-files node (and
/// what lies below such a node) has its key among `node_keys` and among
/// `list_keys`.
pub open spec fn all_indexed(
    s: Seq<DirectoryNode>,
    root_path: Seq<char>,
    node_keys: Set<Seq<char>>,
    list_keys: Set<Seq<char>>,
) -> bool
    decreases s,
{
    if s.len() == 0 {
        true
    } else {
        proof {
            assert(decreases_to!(s => s.last()));
        }
        &&& all_indexed(s.drop_last(), root_path, node_keys, list_keys)
        &&& (is_root_files_entry(root_path, s.last()) || (node_keys.contains(index_key(s.last().path@))
            && list_keys.contains(index_key(s.last().path@)) && all_indexed(
            s.last().children@,
            root_path,
            node_keys,
            list_keys,
        )))
    }
}

proof fn lemma_all_indexed_grow(
    s: Seq<DirectoryNode>,
    root_path: Seq<char>,
    nk: Set<Seq<char>>,
    lk: Set<Seq<char>>,
    nk2: Set<Seq<char>>,
    lk2: Set<Seq<char>>,
)
    requires
        all_indexed(s, root_path, nk, lk),
        forall|k: Seq<char>| #[trigger] nk.contains(k) ==> nk2.contains(k),
        forall|k: Seq<char>| #[trigger] lk.contains(k) ==> lk2.contains(k),
    ensures
        all_indexed(s, root_path, nk2, lk2),
    decreases s,
{
    if s.len() > 0 {
        assert(decreases_to!(s => s.last()));
        lemma_all_indexed_grow(s.drop_last(), root_path, nk, lk, nk2, lk2);
        if !is_root_files_entry(root_path, s.last()) {
            lemma_all_indexed_grow(s.last().children@, root_path, nk, lk, nk2, lk2);
        }
    }
}

/// Files the children of `parent_path` and, for every child but the root's
/// own-files node, the child itself and its own subtree.
fn index_children(
    root_path: &str,
    parent_path: &str,
    children: &Vec<DirectoryNode>,
    nodes: &mut Vec<DirectoryNode>,
    node_index: &mut StringHashMap<usize>,
    lists: &mut Vec<Vec<DirectoryNode>>,
    list_index: &mut StringHashMap<usize>,
)
    requires
        node_table_ok(old(nodes)@, old(node_index)@),
        list_table_ok(old(lists)@, old(list_index)@),
    ensures
        node_table_ok(final(nodes)@, final(node_index)@),
        list_table_ok(final(lists)@, final(list_index)@),
        final(list_index)@.contains_key(index_key(parent_path@)),
        forall|k: Seq<char>| old(node_index)@.contains_key(k) ==> #[trigger] final(node_index)@.contains_key(k),
        forall|k: Seq<char>| old(list_index)@.contains_key(k) ==> #[trigger] final(list_index)@.contains_key(k),
        all_indexed(children@, root_path@, final(node_index)@.dom(), final(list_index)@.dom()),
    decreases children@,
{
    let compact = strip_list(children);
    list_table_put(lists, list_index, index_key_str(parent_path), compact);
    let mut i: usize = 0;
    while i < children.len()
        invariant
            i <= children.len(),
            node_table_ok(nodes@, node_index@),
            list_table_ok(lists@, list_index@),
            list_index@.contains_key(index_key(parent_path@)),
            forall|k: Seq<char>| old(node_index)@.contains_key(k) ==> #[trigger] node_index@.contains_key(k),
            forall|k: Seq<char>| old(list_index)@.contains_key(k) ==> #[trigger] list_index@.contains_key(k),
            all_indexed(children@.take(i as int), root_path@, node_index@.dom(), list_index@.dom()),
        decreases children.len() - i,
    {
        let child = &children[i];
        let ghost nk0 = node_index@.dom();
        let ghost lk0 = list_index@.dom();
        assert(decreases_to!(children@ => children@[i as int]));
        assert(decreases_to!(children@[i as int] => children@[i as int].children@));
        if !is_root_files_node(root_path, child) {
            let ghost ki = node_index@;
            let ghost kl = list_index@;
            node_table_put(nodes, node_index, index_key_str(child.path.as_str()), strip_node(child));
            let ghost nk1 = node_index@.dom();
            index_children(root_path, child.path.as_str(), &child.children, nodes, node_index, lists, list_index);
            assert(forall|k: Seq<char>| ki.contains_key(k) ==> #[trigger] node_index@.contains_key(k));
            assert(forall|k: Seq<char>| kl.contains_key(k) ==> #[trigger] list_index@.contains_key(k));
            proof {
                assert(nk1.contains(index_key(child.path@)));
                assert(node_index@.dom().contains(index_key(child.path@)));
                assert(list_index@.dom().contains(index_key(child.path@)));
            }
        }
        proof {
            let t = children@.take(i as int + 1);
            assert(t.drop_last() =~= children@.take(i as int));
            assert(t.last() == children@[i as int]);
            lemma_all_indexed_grow(children@.take(i as int), root_path@, nk0, lk0, node_index@.dom(), list_index@.dom());
        }
        i = i + 1;
    }
    assert(children@.take(children@.len() as int) =~= children@);
}

/// A finished scan, indexed for lookups by path.
pub struct IndexedScanResult {
    root_path: String,
    total_size: u64,
    total_files: usize,
    total_dirs: usize,
    scan_duration_ms: u64,
    inaccessible_count: usize,
    scan_backend: Option<String>,
    root_children: Vec<DirectoryNode>,
    nodes: Vec<DirectoryNode>,
    node_index: StringHashMap<usize>,
    child_lists: Vec<Vec<DirectoryNode>>,
    child_index: StringHashMap<usize>,
    large_files: Vec<FileInfo>,
    root_file_id: Option<u64>,
    usn_journal_id: Option<u64>,
    usn_next_usn: Option<i64>,
}

impl IndexedScanResult {
    #[verifier::type_invariant]
    spec fn tables_ok(self) -> bool {
        &&& node_table_ok(self.nodes@, self.node_index@)
        &&& list_table_ok(self.child_lists@, self.child_index@)
    }

    /// Every indexed directory (children stripped), by key.
    pub closed spec fn node_map(self) -> Map<Seq<char>, DirectoryNode> {
        Map::new(|k: Seq<char>| self.node_index@.contains_key(k), |k: Seq<char>| self.nodes@[self.node_index@[k] as int])
    }

    /// The (stripped) children of every indexed directory, by key.
    pub closed spec fn children_map(self) -> Map<Seq<char>, Seq<DirectoryNode>> {
        Map::new(
            |k: Seq<char>| self.child_index@.contains_key(k),
            |k: Seq<char>| self.child_lists@[self.child_index@[k] as int]@,
        )
    }

    pub closed spec fn root_view(self) -> Seq<char> {
        self.root_path@
    }

    pub closed spec fn total_size_view(self) -> u64 {
        self.total_size
    }

    pub closed spec fn total_files_view(self) -> usize {
        self.total_files
    }

    pub closed spec fn total_dirs_view(self) -> usize {
        self.total_dirs
    }

    pub closed spec fn inaccessible_view(self) -> usize {
        self.inaccessible_count
    }

    pub closed spec fn large_files_view(self) -> Seq<FileInfo> {
        self.large_files@
    }

    pub closed spec fn root_children_view(self) -> Seq<DirectoryNode> {
        self.root_children@
    }

    pub closed spec fn nodes_view(self) -> Seq<DirectoryNode> {
        self.nodes@
    }

    /// This index was made from `result`: the same root, totals and large
    /// files; every directory of the result indexed; the root's list the
    /// stripped top level of the result; every indexed node without
    /// children and filed under its own key.
    pub open spec fn indexes(self, result: ScanResult) -> bool {
        &&& self.root_view() == result.root_path@
        &&& self.total_size_view() == result.total_size
        &&& self.total_files_view() == result.total_files
        &&& self.total_dirs_view() == result.total_dirs
        &&& self.inaccessible_view() == result.inaccessible_count
        &&& all_indexed(result.directories@, result.root_path@, self.node_map().dom(), self.children_map().dom())
        &&& self.large_files_view() == result.large_files@
        &&& self.root_children_view().len() == result.directories@.len()
        &&& forall|i: int| 0 <= i < result.directories@.len() ==> #[trigger] stripped_from(
            result.directories@[i],
            self.root_children_view()[i],
        )
        &&& self.children_map().contains_key(index_key(result.root_path@))
        &&& forall|k: Seq<char>| #[trigger] self.node_map().contains_key(k) ==> index_key(self.node_map()[k].path@) == k
            && self.node_map()[k].children@.len() == 0
        &&& forall|i: int| 0 <= i < self.nodes_view().len() ==> #[trigger] self.nodes_view()[i].children@.len() == 0
    }

    /// Indexes a scan: the top level stripped, every directory below by key
    /// (the root's own-files node left out), and the stripped children of
    /// the root and of every indexed directory.
    pub fn from_scan_result(result: &ScanResult) -> (r: IndexedScanResult)
        ensures
            r.indexes(*result),
    {
        let mut nodes: Vec<DirectoryNode> = Vec::new();
        let mut node_index: StringHashMap<usize> = StringHashMap::new();
        let mut lists: Vec<Vec<DirectoryNode>> = Vec::new();
        let mut list_index: StringHashMap<usize> = StringHashMap::new();
        index_children(
            result.root_path.as_str(),
            result.root_path.as_str(),
            &result.directories,
            &mut nodes,
            &mut node_index,
            &mut lists,
            &mut list_index,
        );
        let mut large: Vec<FileInfo> = Vec::new();
        let mut i: usize = 0;
        while i < result.large_files.len()
            invariant
                i <= result.large_files.len(),
                large@ == result.large_files@.take(i as int),
            decreases result.large_files.len() - i,
        {
            large.push(copy_file_info(&result.large_files[i]));
            i = i + 1;
            assert(large@ =~= result.large_files@.take(i as int));
        }
        assert(large@ =~= result.large_files@);
        let r = IndexedScanResult {
            root_path: result.root_path.clone(),
            total_size: result.total_size,
            total_files: result.total_files,
            total_dirs: result.total_dirs,
            scan_duration_ms: result.scan_duration_ms,
            inaccessible_count: result.inaccessible_count,
            scan_backend: copy_opt_string(&result.scan_backend),
            root_children: strip_list(&result.directories),
            nodes,
            node_index,
            child_lists: lists,
            child_index: list_index,
            large_files: large,
            root_file_id: result.root_file_id,
            usn_journal_id: result.usn_journal_id,
            usn_next_usn: result.usn_next_usn,
        };
        assert(r.node_map().dom() =~= r.node_index@.dom());
        assert(r.children_map().dom() =~= r.child_index@.dom());
        r
    }

    /// The large files under `path`, largest first.
    fn large_files_for_path(&self, path: &str) -> (r: Vec<FileInfo>)
        ensures
            files_sorted_desc(r@),
            r@.to_multiset() == self.large_files@.filter(|f: FileInfo| file_under(f.path@, path@)).to_multiset(),
    {
        let ghost pred = |f: FileInfo| file_under(f.path@, path@);
        let mut out: Vec<FileInfo> = Vec::new();
        let mut i: usize = 0;
        while i < self.large_files.len()
            invariant
                i <= self.large_files.len(),
                pred == (|f: FileInfo| file_under(f.path@, path@)),
                out@ == self.large_files@.take(i as int).filter(pred),
            decreases self.large_files.len() - i,
        {
            let f = &self.large_files[i];
            proof {
                reveal_with_fuel(Seq::filter, 1);
                assert(self.large_files@.take(i as int + 1).drop_last() =~= self.large_files@.take(i as int));
            }
            if path_components_start_with(f.path.as_str(), path) {
                out.push(copy_file_info(f));
            }
            i = i + 1;
        }
        assert(self.large_files@.take(self.large_files.len() as int) =~= self.large_files@);
        sort_files_by_size_desc(&mut out);
        out
    }

    /// What a snapshot of `path` is (see [`Self::snapshot_for_path`]).
    pub open spec fn snapshot_matches(self, path: Seq<char>, r: Option<ScanResult>) -> bool {
        &&& (r is Some <==> (index_key(path) == index_key(self.root_view()) || self.node_map().contains_key(
                index_key(path),
            )))
        &&& (r matches Some(s) ==> s.cache_schema_version == 0 && !s.scan_completed)
        &&& (r matches Some(s) ==> index_key(path) == index_key(self.root_view()) ==> s.root_path@ == self.root_view()
                && s.total_size == self.total_size_view() && s.large_files@ == self.large_files_view()
                && s.total_files == self.total_files_view() && s.total_dirs == self.total_dirs_view()
                && s.inaccessible_count == self.inaccessible_view()
                && s.directories@.len() == self.root_children_view().len() && (forall|i: int|
                0 <= i < s.directories@.len() ==> #[trigger] stripped_from(
                self.root_children_view()[i],
                s.directories@[i],
            )))
        &&& (r matches Some(s) ==> index_key(path) != index_key(self.root_view()) ==> ({
                let node = self.node_map()[index_key(path)];
                &&& s.root_path == node.path
                &&& s.total_size == node.size
                &&& s.total_files == node.file_count
                &&& s.total_dirs == (if node.dir_count >= 1 { node.dir_count - 1 } else { 0 })
                &&& s.directories@.len() == (if self.children_map().contains_key(index_key(path)) {
                    self.children_map()[index_key(path)].len()
                } else {
                    0
                })
                &&& forall|i: int| 0 <= i < s.directories@.len() ==> #[trigger] stripped_from(
                    self.children_map()[index_key(path)][i],
                    s.directories@[i],
                )
                &&& files_sorted_desc(s.large_files@)
                &&& s.large_files@.to_multiset() == self.large_files_view().filter(
                    |f: FileInfo| file_under(f.path@, path),
                ).to_multiset()
            }))
    }

    /// A snapshot of the subtree at `path`: for the scan root, the whole
    /// scan; for an indexed directory, its totals, its children and the
    /// large files under it (largest first); otherwise nothing. A snapshot
    /// carries no schema version, a default fingerprint and is not marked
    /// complete.
    pub fn snapshot_for_path(&self, path: &str) -> (r: Option<ScanResult>)
        ensures
            self.snapshot_matches(path@, r),
    {
        proof {
            use_type_invariant(self);
        }
        let key = index_key_str(path);
        let root_key = index_key_str(self.root_path.as_str());
        if str_eq(key.as_str(), root_key.as_str()) {
            let mut large: Vec<FileInfo> = Vec::new();
            let mut i: usize = 0;
            while i < self.large_files.len()
                invariant
                    i <= self.large_files.len(),
                    large@ == self.large_files@.take(i as int),
                decreases self.large_files.len() - i,
            {
                large.push(copy_file_info(&self.large_files[i]));
                i = i + 1;
                assert(large@ =~= self.large_files@.take(i as int));
            }
            assert(large@ =~= self.large_files@);
            return Some(ScanResult {
                root_path: self.root_path.clone(),
                total_size: self.total_size,
                system_reserved_bytes: 0,
                total_files: self.total_files,
                total_dirs: self.total_dirs,
                scan_duration_ms: self.scan_duration_ms,
                directories: strip_list(&self.root_children),
                large_files: large,
                inaccessible_count: self.inaccessible_count,
                scan_backend: copy_opt_string(&self.scan_backend),
                root_file_id: self.root_file_id,
                usn_journal_id: self.usn_journal_id,
                usn_next_usn: self.usn_next_usn,
                cache_schema_version: 0,
                env_fingerprint: EnvFingerprint::default(),
                scan_completed: false,
            });
        }
        let pos: usize = match self.node_index.get(key.as_str()) {
            Some(p) => *p,
            None => {
                return None;
            },
        };
        let node = &self.nodes[pos];
        let directories: Vec<DirectoryNode> = match self.child_index.get(key.as_str()) {
            Some(p) => strip_list(&self.child_lists[*p]),
            None => Vec::new(),
        };
        Some(ScanResult {
            root_path: node.path.clone(),
            total_size: node.size,
            system_reserved_bytes: 0,
            total_files: node.file_count,
            total_dirs: node.dir_count.saturating_sub(1),
            scan_duration_ms: self.scan_duration_ms,
            directories,
            large_files: self.large_files_for_path(path),
            inaccessible_count: self.inaccessible_count,
            scan_backend: copy_opt_string(&self.scan_backend),
            root_file_id: self.root_file_id,
            usn_journal_id: self.usn_journal_id,
            usn_next_usn: self.usn_next_usn,
            cache_schema_version: 0,
            env_fingerprint: EnvFingerprint::default(),
            scan_completed: false,
        })
    }

    /// The scan root.
    pub fn root_path(&self) -> (r: &str)
        ensures
            r@ == self.root_view(),
    {
        self.root_path.as_str()
    }

    /// Every indexed directory (children stripped).
    pub fn iter_nodes(&self) -> (r: &Vec<DirectoryNode>)
        ensures
            r@ == self.nodes_view(),
            forall|i: int| 0 <= i < r@.len() ==> #[trigger] r@[i].children@.len() == 0,
    {
        proof {
            use_type_invariant(self);
        }
        &self.nodes
    }

    /// Every large file of the scan.
    pub fn large_files_iter(&self) -> (r: &Vec<FileInfo>)
        ensures
            r@ == self.large_files_view(),
    {
        &self.large_files
    }

    /// The top-level directories of the scan (children stripped).
    pub fn root_children(&self) -> (r: &Vec<DirectoryNode>)
        ensures
            r@ == self.root_children_view(),
    {
        &self.root_children
    }

    /// The children of the directory at `path`, when it was indexed.
    pub fn children_of(&self, path: &str) -> (r: Option<&Vec<DirectoryNode>>)
        ensures
            r is Some == self.children_map().contains_key(index_key(path@)),
            r matches Some(v) ==> v@ == self.children_map()[index_key(path@)],
    {
        proof {
            use_type_invariant(self);
        }
        let key = index_key_str(path);
        match self.child_index.get(key.as_str()) {
            Some(p) => Some(&self.child_lists[*p]),
            None => None,
        }
    }

    /// The total size of the scan.
    pub fn total_size(&self) -> (r: u64)
        ensures
            r == self.total_size_view(),
    {
        self.total_size
    }
}

} // verus!
