//! Directory renames reported by the change journal, applied to a cached
//! tree before the keyed merge: the renamed subtree is taken out, its paths
//! are moved to the new location, and it is hung under its new parent.
use vstd::prelude::*;
use crate::file_info::DirectoryNode;
use crate::path_utils::{names_from, normalized_path_key_str, path_key, push_names, root_end_of};
use crate::text::{chars_of, is_prefix_of, owned, push_char, push_str, string_from_chars, str_eq, starts_with};

verus! {

/// The record of a node apart from its path, name, children and flag.
pub open spec fn same_record(a: DirectoryNode, b: DirectoryNode) -> bool {
    &&& a.size == b.size
    &&& a.file_count == b.file_count
    &&& a.dir_count == b.dir_count
    &&& a.is_symlink == b.is_symlink
    &&& a.link_target == b.link_target
    &&& a.safety == b.safety
    &&& a.modified_time == b.modified_time
    &&& a.file_id == b.file_id
}

/// The last name of a path, as `Path::file_name` gives it: none when the
/// path has no name (a bare root) or ends in `..`.
pub open spec fn file_name_of(v: Seq<char>) -> Option<Seq<char>> {
    let names = names_from(v, root_end_of(v));
    if names.len() > 0 && names.last() != seq!['.', '.'] {
        Some(names.last())
    } else {
        None
    }
}

/// The last name of a path (see [`file_name_of`]).
pub fn file_name_text(path: &str) -> (r: Option<String>)
    ensures
        r matches Some(s) ==> file_name_of(path@) == Some(s@),
        r is None ==> file_name_of(path@) is None,
{
    let v = chars_of(path);
    let pre: usize = if v.len() >= 2 && v[1] == ':' && (('a' <= v[0] && v[0] <= 'z') || ('A' <= v[0] && v[0] <= 'Z')) {
        2
    } else {
        0
    };
    let root_end: usize = if v.len() > pre && (v[pre] == '\\' || v[pre] == '/') {
        pre + 1
    } else {
        pre
    };
    assert(root_end == root_end_of(v@));
    let mut names: Vec<Vec<char>> = Vec::new();
    push_names(&v, root_end, &mut names);
    assert(crate::path_utils::char_vec_views(names@) =~= names_from(v@, root_end as int));
    if names.len() == 0 {
        return None;
    }
    let last = &names[names.len() - 1];
    assert(last@ == names_from(v@, root_end as int).last());
    if last.len() == 2 && last[0] == '.' && last[1] == '.' {
        assert(last@ =~= seq!['.', '.']);
        return None;
    }
    assert(last@ != seq!['.', '.']);
    Some(string_from_chars(last.as_slice()))
}

/// Where a path of the moved subtree goes: the subtree's root (key
/// `old_prefix`) to `new_path`; a path whose key continues `old_prefix` to
/// `new_path` followed by the rest of its key; any other path stays.
pub open spec fn relocated_text(path: Seq<char>, old_prefix: Seq<char>, new_path: Seq<char>) -> Seq<char> {
    let k = path_key(path);
    if k == old_prefix {
        new_path
    } else if is_prefix_of(old_prefix, k) {
        new_path + k.skip(old_prefix.len() as int)
    } else {
        path
    }
}

/// `new` is `old` with every path of the subtree moved (see
/// [`relocated_text`]) and each name taken from its new path (kept when the
/// new path has none); nothing else changes.
pub open spec fn relocated(old: DirectoryNode, new: DirectoryNode, old_prefix: Seq<char>, new_path: Seq<char>) -> bool
    decreases old,
{
    let p = relocated_text(old.path@, old_prefix, new_path);
    &&& same_record(old, new)
    &&& new.path@ == p
    &&& new.name@ == match file_name_of(p) {
        Some(n) => n,
        None => old.name@,
    }
    &&& new.has_children == old.has_children
    &&& new.children@.len() == old.children@.len()
    &&& forall|i: int| 0 <= i < old.children@.len() ==> relocated(old.children@[i], #[trigger] new.children@[i], old_prefix, new_path)
}

/// The new path of one node (see [`relocated_text`]).
fn relocated_path(path: &str, old_prefix: &str, new_path: &str) -> (r: String)
    ensures
        r@ == relocated_text(path@, old_prefix@, new_path@),
{
    let key = normalized_path_key_str(path);
    if str_eq(key.as_str(), old_prefix) {
        return owned(new_path);
    }
    if starts_with(key.as_str(), old_prefix) {
        let kv = chars_of(key.as_str());
        let pv = chars_of(old_prefix);
        let mut out = owned(new_path);
        let mut i: usize = pv.len();
        proof {
            assert(kv@.skip(pv@.len() as int).take(0) =~= Seq::<char>::empty());
        }
        while i < kv.len()
            invariant
                pv@.len() <= i <= kv@.len(),
                kv@ == key@,
                out@ == new_path@ + kv@.skip(pv@.len() as int).take(i - pv@.len()),
            decreases kv@.len() - i,
        {
            let ghost before = out@;
            push_char(&mut out, kv[i]);
            assert(kv@.skip(pv@.len() as int).take(i + 1 - pv@.len()) =~= kv@.skip(pv@.len() as int).take(i - pv@.len()).push(kv@[i as int]));
            i = i + 1;
        }
        assert(kv@.skip(pv@.len() as int).take(kv@.len() - pv@.len()) =~= kv@.skip(pv@.len() as int));
        return out;
    }
    owned(path)
}

/// Moves every path of the subtree (see [`relocated`]).
pub fn relocate_subtree_path(node: &mut DirectoryNode, old_key_prefix: &str, new_path: &str)
    ensures
        relocated(*old(node), *final(node), old_key_prefix@, new_path@),
    decreases *old(node),
{
    let new_text = relocated_path(node.path.as_str(), old_key_prefix, new_path);
    match file_name_text(new_text.as_str()) {
        Some(n) => {
            node.name = n;
        },
        None => {},
    }
    node.path = new_text;
    let ghost orig = node.children@;
    let mut i: usize = 0;
    while i < node.children.len()
        invariant
            i <= node.children@.len(),
            node.children@.len() == orig.len(),
            orig == old(node).children@,
            forall|j: int| i <= j < orig.len() ==> node.children@[j] == orig[j],
            forall|j: int| 0 <= j < i ==> relocated(orig[j], #[trigger] node.children@[j], old_key_prefix@, new_path@),
            same_record(*old(node), *node),
            node.path@ == relocated_text(old(node).path@, old_key_prefix@, new_path@),
            node.name@ == match file_name_of(node.path@) {
                Some(n) => n,
                None => old(node).name@,
            },
            node.has_children == old(node).has_children,
        decreases node.children@.len() - i,
    {
        assert(decreases_to!(*old(node) => orig[i as int]));
        relocate_subtree_path(&mut node.children[i], old_key_prefix, new_path);
        i = i + 1;
    }
}

/// The first position at or after `i` of a top-level node keyed `key`.
pub open spec fn top_index(s: Seq<DirectoryNode>, key: Seq<char>, i: int) -> Option<int>
    decreases s.len() - i,
{
    if i < 0 || i >= s.len() {
        None
    } else if path_key(s[i].path@) == key {
        Some(i)
    } else {
        top_index(s, key, i + 1)
    }
}

proof fn lemma_top_index(s: Seq<DirectoryNode>, key: Seq<char>, i: int)
    requires
        0 <= i,
    ensures
        top_index(s, key, i) matches Some(j) ==> i <= j < s.len() && path_key(s[j].path@) == key,
        top_index(s, key, i) is None ==> forall|j: int| i <= j < s.len() ==> path_key(#[trigger] s[j].path@) != key,
    decreases s.len() - i,
{
    if i < s.len() {
        lemma_top_index(s, key, i + 1);
    }
}

/// The node a search for `key` takes out of a forest: a top-level node of
/// that key first; else, in order, the first top-level node below which
/// the search succeeds.
pub open spec fn extract_result(s: Seq<DirectoryNode>, key: Seq<char>) -> Option<DirectoryNode>
    decreases s, s.len() + 1,
{
    match top_index(s, key, 0) {
        Some(i) => Some(s[i]),
        None => nested_extract(s, key, 0),
    }
}

/// The node taken out below the top-level nodes from position `j` on.
pub open spec fn nested_extract(s: Seq<DirectoryNode>, key: Seq<char>, j: int) -> Option<DirectoryNode>
    decreases s, s.len() - j,
{
    if j < 0 || j >= s.len() {
        None
    } else {
        proof {
            assert(decreases_to!(s => s[j]));
            assert(decreases_to!(s[j] => s[j].children));
            assert(decreases_to!(s[j].children => s[j].children@));
        }
        match extract_result(s[j].children@, key) {
            Some(x) => Some(x),
            None => nested_extract(s, key, j + 1),
        }
    }
}

/// `b` is `a` with other children: same path, name and record.
pub open spec fn same_node_but_children(a: DirectoryNode, b: DirectoryNode) -> bool {
    same_record(a, b) && a.path == b.path && a.name == b.name
}

/// `new` is the forest `old` after the search for `key` took its node out
/// (see [`extract_result`]); the node on the way down whose children lost
/// it has its flag refreshed.
pub open spec fn extracted_forest(old: Seq<DirectoryNode>, new: Seq<DirectoryNode>, key: Seq<char>) -> bool
    decreases old, old.len() + 1,
{
    match top_index(old, key, 0) {
        Some(i) => new == old.remove(i),
        None => nested_rest(old, new, key, 0),
    }
}

/// The forest below the top-level nodes from position `j` on after the
/// search took its node out.
pub open spec fn nested_rest(old: Seq<DirectoryNode>, new: Seq<DirectoryNode>, key: Seq<char>, j: int) -> bool
    decreases old, old.len() - j,
{
    if j < 0 || j >= old.len() {
        new == old
    } else {
        proof {
            assert(decreases_to!(old => old[j]));
            assert(decreases_to!(old[j] => old[j].children));
            assert(decreases_to!(old[j].children => old[j].children@));
        }
        if extract_result(old[j].children@, key) is Some {
            &&& new.len() == old.len()
            &&& forall|k: int| 0 <= k < old.len() && k != j ==> new[k] == old[k]
            &&& same_node_but_children(old[j], new[j])
            &&& extracted_forest(old[j].children@, new[j].children@, key)
            &&& new[j].has_children == (new[j].children@.len() > 0)
        } else {
            nested_rest(old, new, key, j + 1)
        }
    }
}

proof fn lemma_nested_rest_skip(old: Seq<DirectoryNode>, new: Seq<DirectoryNode>, key: Seq<char>, a: int, b: int)
    requires
        0 <= a <= b <= old.len(),
        forall|j: int| a <= j < b ==> extract_result((#[trigger] old[j]).children@, key) is None,
    ensures
        nested_rest(old, new, key, a) == nested_rest(old, new, key, b),
    decreases b - a,
{
    if a < b {
        lemma_nested_rest_skip(old, new, key, a + 1, b);
        assert(extract_result(old[a].children@, key) is None);
    }
}

/// Whether a search for `key` finds a node to take out of the forest.
fn would_extract(tree: &Vec<DirectoryNode>, key: &str) -> (r: bool)
    ensures
        r == (extract_result(tree@, key@) is Some),
    decreases tree@,
{
    let mut pos: usize = 0;
    while pos < tree.len()
        invariant
            pos <= tree@.len(),
            top_index(tree@, key@, 0) == top_index(tree@, key@, pos as int),
        decreases tree@.len() - pos,
    {
        let k = normalized_path_key_str(tree[pos].path.as_str());
        if str_eq(k.as_str(), key) {
            return true;
        }
        pos = pos + 1;
    }
    let mut i: usize = 0;
    while i < tree.len()
        invariant
            i <= tree@.len(),
            top_index(tree@, key@, 0) is None,
            extract_result(tree@, key@) == nested_extract(tree@, key@, i as int),
        decreases tree@.len() - i,
    {
        assert(decreases_to!(tree@ => tree@[i as int]));
        assert(decreases_to!(tree@[i as int] => tree@[i as int].children));
        assert(decreases_to!(tree@[i as int].children => tree@[i as int].children@));
        if would_extract(&tree[i].children, key) {
            return true;
        }
        i = i + 1;
    }
    false
}

/// Takes the node keyed `key` out of the forest (see [`extract_result`]
/// and [`extracted_forest`]).
pub fn extract_subtree(tree: &mut Vec<DirectoryNode>, key: &str) -> (r: Option<DirectoryNode>)
    ensures
        r == extract_result(old(tree)@, key@),
        extracted_forest(old(tree)@, final(tree)@, key@),
        r is None ==> final(tree)@ == old(tree)@,
    decreases old(tree)@,
{
    let ghost orig = tree@;
    let mut pos: usize = 0;
    while pos < tree.len()
        invariant
            pos <= tree@.len(),
            tree@ == orig,
            orig == old(tree)@,
            top_index(orig, key@, 0) == top_index(orig, key@, pos as int),
        decreases tree@.len() - pos,
    {
        let k = normalized_path_key_str(tree[pos].path.as_str());
        if str_eq(k.as_str(), key) {
            let removed = tree.remove(pos);
            return Some(removed);
        }
        pos = pos + 1;
    }
    proof {
        lemma_top_index(orig, key@, 0);
    }
    let mut i: usize = 0;
    while i < tree.len()
        invariant
            i <= tree@.len(),
            tree@ == orig,
            orig == old(tree)@,
            top_index(orig, key@, 0) is None,
            extract_result(orig, key@) == nested_extract(orig, key@, i as int),
            forall|j: int| 0 <= j < i ==> extract_result((#[trigger] orig[j]).children@, key@) is None,
        decreases tree@.len() - i,
    {
        assert(decreases_to!(old(tree)@ => orig[i as int]));
        assert(decreases_to!(orig[i as int] => orig[i as int].children));
        assert(decreases_to!(orig[i as int].children => orig[i as int].children@));
        if would_extract(&tree[i].children, key) {
            let found = extract_subtree(&mut tree[i].children, key);
            let now_empty = tree[i].children.len() == 0;
            tree[i].has_children = !now_empty;
            assert(nested_rest(orig, tree@, key@, i as int));
            proof {
                lemma_nested_rest_skip(orig, tree@, key@, 0, i as int);
            }
            return found;
        }
        i = i + 1;
    }
    proof {
        lemma_nested_rest_skip(orig, orig, key@, 0, orig.len() as int);
    }
    None
}

/// Some node of the forest from top-level position `j` on, or below
/// them, is keyed `key`.
pub open spec fn has_key_from(s: Seq<DirectoryNode>, key: Seq<char>, j: int) -> bool
    decreases s, s.len() - j,
{
    if j < 0 || j >= s.len() {
        false
    } else {
        proof {
            assert(decreases_to!(s => s[j]));
            assert(decreases_to!(s[j] => s[j].children));
            assert(decreases_to!(s[j].children => s[j].children@));
        }
        path_key(s[j].path@) == key || has_key_from(s[j].children@, key, 0) || has_key_from(s, key, j + 1)
    }
}

/// Whether some node of the forest is keyed `key`.
pub fn has_key(tree: &Vec<DirectoryNode>, key: &str) -> (r: bool)
    ensures
        r == has_key_from(tree@, key@, 0),
    decreases tree@,
{
    let mut i: usize = 0;
    while i < tree.len()
        invariant
            i <= tree@.len(),
            has_key_from(tree@, key@, 0) == has_key_from(tree@, key@, i as int),
        decreases tree@.len() - i,
    {
        let k = normalized_path_key_str(tree[i].path.as_str());
        if str_eq(k.as_str(), key) {
            return true;
        }
        assert(decreases_to!(tree@ => tree@[i as int]));
        assert(decreases_to!(tree@[i as int] => tree@[i as int].children));
        assert(decreases_to!(tree@[i as int].children => tree@[i as int].children@));
        if has_key(&tree[i].children, key) {
            return true;
        }
        i = i + 1;
    }
    false
}

/// `new` is the forest `old` with `n` added as the last child of the first
/// node keyed `key` in pre-order (from top-level position `j` on), which
/// is then flagged as having children.
pub open spec fn attached_from(old: Seq<DirectoryNode>, new: Seq<DirectoryNode>, key: Seq<char>, n: DirectoryNode, j: int) -> bool
    decreases old, old.len() - j,
{
    if j < 0 || j >= old.len() {
        false
    } else if path_key(old[j].path@) == key {
        &&& new.len() == old.len()
        &&& forall|k: int| 0 <= k < old.len() && k != j ==> new[k] == old[k]
        &&& same_node_but_children(old[j], new[j])
        &&& new[j].children@ == old[j].children@.push(n)
        &&& new[j].has_children
    } else {
        proof {
            assert(decreases_to!(old => old[j]));
            assert(decreases_to!(old[j] => old[j].children));
            assert(decreases_to!(old[j].children => old[j].children@));
        }
        if has_key_from(old[j].children@, key, 0) {
            &&& new.len() == old.len()
            &&& forall|k: int| 0 <= k < old.len() && k != j ==> new[k] == old[k]
            &&& same_node_but_children(old[j], new[j])
            &&& new[j].has_children == old[j].has_children
            &&& attached_from(old[j].children@, new[j].children@, key, n, 0)
        } else {
            attached_from(old, new, key, n, j + 1)
        }
    }
}

proof fn lemma_attached_skip(old: Seq<DirectoryNode>, new: Seq<DirectoryNode>, key: Seq<char>, n: DirectoryNode, a: int, b: int)
    requires
        0 <= a <= b <= old.len(),
        forall|j: int| a <= j < b ==> path_key((#[trigger] old[j]).path@) != key && !has_key_from(old[j].children@, key, 0),
    ensures
        attached_from(old, new, key, n, a) == attached_from(old, new, key, n, b),
        has_key_from(old, key, a) == has_key_from(old, key, b),
    decreases b - a,
{
    if a < b {
        lemma_attached_skip(old, new, key, n, a + 1, b);
        assert(path_key(old[a].path@) != key);
    }
}

/// Adds `node` below the first node keyed `key` (see [`attached_from`]).
fn attach_in(tree: &mut Vec<DirectoryNode>, key: &str, node: DirectoryNode)
    requires
        has_key_from(old(tree)@, key@, 0),
    ensures
        attached_from(old(tree)@, final(tree)@, key@, node, 0),
    decreases old(tree)@,
{
    let ghost orig = tree@;
    let mut i: usize = 0;
    while i < tree.len()
        invariant
            i <= tree@.len(),
            tree@ == orig,
            orig == old(tree)@,
            has_key_from(orig, key@, i as int),
            forall|j: int| 0 <= j < i ==> path_key((#[trigger] orig[j]).path@) != key@ && !has_key_from(orig[j].children@, key@, 0),
        decreases tree@.len() - i,
    {
        let k = normalized_path_key_str(tree[i].path.as_str());
        if str_eq(k.as_str(), key) {
            let ghost before_children = tree@[i as int].children@;
            tree[i].children.push(node);
            tree[i].has_children = true;
            proof {
                assert(attached_from(orig, tree@, key@, node, i as int));
                lemma_attached_skip(orig, tree@, key@, node, 0, i as int);
            }
            return;
        }
        assert(decreases_to!(old(tree)@ => orig[i as int]));
        assert(decreases_to!(orig[i as int] => orig[i as int].children));
        assert(decreases_to!(orig[i as int].children => orig[i as int].children@));
        if has_key(&tree[i].children, key) {
            attach_in(&mut tree[i].children, key, node);
            proof {
                assert(attached_from(orig, tree@, key@, node, i as int));
                lemma_attached_skip(orig, tree@, key@, node, 0, i as int);
            }
            return;
        }
        i = i + 1;
    }
    proof {
        assert(!has_key_from(orig, key@, i as int));
    }
}

/// Hangs `new_node` under the node of its new path's parent, when the
/// forest holds that parent (see [`attached_from`]); reports whether it
/// did. A node not hung is dropped.
pub fn attach_under_parent(tree: &mut Vec<DirectoryNode>, new_path: &str, new_node: DirectoryNode) -> (r: bool)
    ensures
        r == (crate::incremental::parent_path_spec(new_path@) matches Some(p) && has_key_from(old(tree)@, path_key(p), 0)),
        r ==> attached_from(old(tree)@, final(tree)@, path_key(crate::incremental::parent_path_spec(new_path@)->0), new_node, 0),
        !r ==> final(tree)@ == old(tree)@,
{
    match crate::incremental::parent_path(new_path) {
        Some(parent) => {
            let parent_key = normalized_path_key_str(parent.as_str());
            if has_key(tree, parent_key.as_str()) {
                attach_in(tree, parent_key.as_str(), new_node);
                true
            } else {
                false
            }
        },
        None => false,
    }
}

/// A rename the change journal reported.
pub struct RenameEvent {
    pub old_path: String,
    pub new_path: String,
    pub is_dir: bool,
}

/// The texts of a list of strings.
pub open spec fn key_texts(s: Seq<String>) -> Seq<Seq<char>> {
    Seq::new(s.len(), |i: int| s[i]@)
}

/// `key` lies at or below one of the rescanned keys.
pub open spec fn under_rescan(key: Seq<char>, rescanned: Seq<Seq<char>>) -> bool {
    exists|k: int| 0 <= k < rescanned.len() && crate::incremental::key_below_or_at(key, #[trigger] rescanned[k])
}

/// Whether `key` lies at or below one of the rescanned keys.
fn under_any(key: &str, rescanned: &Vec<String>) -> (r: bool)
    ensures
        r == under_rescan(key@, key_texts(rescanned@)),
{
    let ghost rk = key_texts(rescanned@);
    let mut i: usize = 0;
    while i < rescanned.len()
        invariant
            i <= rescanned@.len(),
            rk == key_texts(rescanned@),
            forall|j: int| 0 <= j < i ==> !crate::incremental::key_below_or_at(key@, #[trigger] rk[j]),
        decreases rescanned@.len() - i,
    {
        if crate::incremental::key_starts_with(key, rescanned[i].as_str()) {
            assert(crate::incremental::key_below_or_at(key@, rk[i as int]));
            return true;
        }
        i = i + 1;
    }
    false
}

/// One rename applied to the forest `before`, giving `after`; `applied`
/// tells whether the subtree was moved. A rename is left to the merge (the
/// forest unchanged) when it is no directory's, keeps its key, touches a
/// rescanned directory at either end, goes to a path the forest already
/// holds, or comes from one it does not hold. Otherwise the subtree is
/// taken out, its paths moved, and it is hung under its new parent; when
/// the forest has no such parent it stays out.
pub open spec fn rename_step(
    before: Seq<DirectoryNode>,
    after: Seq<DirectoryNode>,
    ev: RenameEvent,
    rescanned: Seq<Seq<char>>,
    applied: bool,
) -> bool {
    let old_key = path_key(ev.old_path@);
    let new_key = path_key(ev.new_path@);
    if !ev.is_dir || old_key == new_key || under_rescan(new_key, rescanned) || under_rescan(old_key, rescanned)
        || has_key_from(before, new_key, 0) || extract_result(before, old_key) is None {
        after == before && !applied
    } else {
        exists|mid: Seq<DirectoryNode>, moved: DirectoryNode|
            #![trigger extracted_forest(before, mid, old_key), relocated(extract_result(before, old_key)->0, moved, old_key, ev.new_path@)]
            extracted_forest(before, mid, old_key) && relocated(extract_result(before, old_key)->0, moved, old_key, ev.new_path@)
                && match crate::incremental::parent_path_spec(ev.new_path@) {
                Some(p) => if has_key_from(mid, path_key(p), 0) {
                    attached_from(mid, after, path_key(p), moved, 0) && applied
                } else {
                    after == mid && !applied
                },
                None => after == mid && !applied,
            }
    }
}

/// How many flags are set.
pub open spec fn count_set(flags: Seq<bool>) -> nat
    decreases flags.len(),
{
    if flags.len() == 0 {
        0
    } else {
        count_set(flags.drop_last()) + if flags.last() { 1nat } else { 0nat }
    }
}

/// `trees` are the forests before and after each rename in turn, `flags`
/// whether each moved its subtree.
pub open spec fn rename_run(
    trees: Seq<Seq<DirectoryNode>>,
    flags: Seq<bool>,
    renames: Seq<RenameEvent>,
    rescanned: Seq<Seq<char>>,
) -> bool {
    &&& trees.len() == renames.len() + 1
    &&& flags.len() == renames.len()
    &&& forall|k: int| 0 <= k < renames.len() ==> rename_step(#[trigger] trees[k], trees[k + 1], renames[k], rescanned, flags[k])
}

/// Some directory rename comes from a path of this key.
pub open spec fn renamed_dir_from(renames: Seq<RenameEvent>, key: Seq<char>) -> bool {
    exists|k: int| 0 <= k < renames.len() && (#[trigger] renames[k]).is_dir && path_key(renames[k].old_path@) == key
}

/// The deleted paths whose key no directory rename comes from, in order.
pub open spec fn kept_deletions(deleted: Seq<String>, renames: Seq<RenameEvent>) -> Seq<String>
    decreases deleted.len(),
{
    if deleted.len() == 0 {
        Seq::empty()
    } else if renamed_dir_from(renames, path_key(deleted.last()@)) {
        kept_deletions(deleted.drop_last(), renames)
    } else {
        kept_deletions(deleted.drop_last(), renames).push(deleted.last())
    }
}

fn renamed_dir_key(key: &str, renames: &Vec<RenameEvent>) -> (r: bool)
    ensures
        r == renamed_dir_from(renames@, key@),
{
    let mut i: usize = 0;
    while i < renames.len()
        invariant
            i <= renames@.len(),
            forall|j: int| 0 <= j < i ==> !((#[trigger] renames@[j]).is_dir && path_key(renames@[j].old_path@) == key@),
        decreases renames@.len() - i,
    {
        if renames[i].is_dir {
            let k = normalized_path_key_str(renames[i].old_path.as_str());
            if str_eq(k.as_str(), key) {
                return true;
            }
        }
        i = i + 1;
    }
    false
}

/// Applies the journal's directory renames to the cached forest before the
/// keyed merge (see [`rename_step`]), and returns the deleted paths (those
/// of renamed directories dropped once some rename was applied), the
/// forest, and how many renames were applied.
pub fn apply_rename_pre_merge(
    tree: Vec<DirectoryNode>,
    deleted_paths: Vec<String>,
    renames: &Vec<RenameEvent>,
    rescanned_keys: &Vec<String>,
) -> (r: (Vec<String>, Vec<DirectoryNode>, usize))
    ensures
        exists|trees: Seq<Seq<DirectoryNode>>, flags: Seq<bool>|
            #![trigger rename_run(trees, flags, renames@, key_texts(rescanned_keys@))]
            rename_run(trees, flags, renames@, key_texts(rescanned_keys@)) && trees[0] == tree@ && trees.last() == r.1@
                && r.2 == count_set(flags),
        r.0@ == if r.2 > 0 { kept_deletions(deleted_paths@, renames@) } else { deleted_paths@ },
{
    let ghost rk = key_texts(rescanned_keys@);
    let ghost tree0 = tree@;
    let mut tree = tree;
    let ghost mut trees: Seq<Seq<DirectoryNode>> = seq![tree@];
    let ghost mut flags: Seq<bool> = Seq::empty();
    let mut applied: usize = 0;
    let mut i: usize = 0;
    while i < renames.len()
        invariant
            i <= renames@.len(),
            rk == key_texts(rescanned_keys@),
            trees.len() == i + 1,
            flags.len() == i,
            trees[0] == tree0,
            trees.last() == tree@,
            forall|k: int| 0 <= k < i ==> rename_step(#[trigger] trees[k], trees[k + 1], renames@[k], rk, flags[k]),
            applied == count_set(flags),
            applied <= i,
        decreases renames@.len() - i,
    {
        let ev = &renames[i];
        let ghost before = tree@;
        let mut moved_now = false;
        if ev.is_dir {
            let old_key = normalized_path_key_str(ev.old_path.as_str());
            let new_key = normalized_path_key_str(ev.new_path.as_str());
            if !str_eq(old_key.as_str(), new_key.as_str()) && !under_any(new_key.as_str(), rescanned_keys)
                && !under_any(old_key.as_str(), rescanned_keys) && !has_key(&tree, new_key.as_str()) {
                match extract_subtree(&mut tree, old_key.as_str()) {
                    Some(sub) => {
                        let ghost mid = tree@;
                        let mut moved = sub;
                        relocate_subtree_path(&mut moved, old_key.as_str(), ev.new_path.as_str());
                        let ghost moved_v = moved;
                        moved_now = attach_under_parent(&mut tree, ev.new_path.as_str(), moved);
                        proof {
                            assert(extracted_forest(before, mid, old_key@) && relocated(extract_result(before, old_key@)->0, moved_v, old_key@, ev.new_path@));
                            assert(rename_step(before, tree@, *ev, rk, moved_now));
                        }
                    },
                    None => {},
                }
            }
        }
        proof {
            assert(rename_step(before, tree@, *ev, rk, moved_now));
            let t0 = trees;
            let f0 = flags;
            trees = trees.push(tree@);
            flags = flags.push(moved_now);
            assert(flags.drop_last() =~= f0);
            assert forall|k: int| 0 <= k < i + 1 implies rename_step(#[trigger] trees[k], trees[k + 1], renames@[k], rk, flags[k]) by {
                if k < i {
                    assert(trees[k] == t0[k] && trees[k + 1] == t0[k + 1] && flags[k] == f0[k]);
                }
            }
        }
        if moved_now {
            applied = applied + 1;
        }
        i = i + 1;
    }
    let mut kept: Vec<String> = Vec::new();
    if applied > 0 {
        let mut deleted = deleted_paths;
        let ghost d0 = deleted@;
        let mut rest: Vec<String> = Vec::new();
        while deleted.len() > 0
            invariant
                d0 == deleted_paths@,
                deleted@.len() <= d0.len(),
                deleted@ == d0.take(deleted@.len() as int),
                kept_deletions(d0, renames@) == kept_deletions(deleted@, renames@) + rest@.reverse(),
            decreases deleted@.len(),
        {
            let ghost before = deleted@;
            let p = deleted.pop().unwrap();
            let key = normalized_path_key_str(p.as_str());
            assert(before.drop_last() =~= deleted@);
            assert(deleted@ =~= d0.take(deleted@.len() as int));
            if !renamed_dir_key(key.as_str(), renames) {
                let ghost r0 = rest@;
                rest.push(p);
                assert(rest@.reverse() =~= seq![before.last()] + r0.reverse());
                assert(kept_deletions(before, renames@) == kept_deletions(deleted@, renames@).push(before.last()));
                assert(kept_deletions(deleted@, renames@).push(before.last()) + r0.reverse() =~= kept_deletions(deleted@, renames@) + rest@.reverse());
            }
        }
        assert(kept_deletions(deleted@, renames@) =~= Seq::<String>::empty());
        while rest.len() > 0
            invariant
                kept_deletions(d0, renames@) == kept@ + rest@.reverse(),
            decreases rest@.len(),
        {
            let ghost r0 = rest@;
            let ghost k0 = kept@;
            let p = rest.pop().unwrap();
            kept.push(p);
            assert(r0.reverse() =~= seq![r0.last()] + rest@.reverse());
            assert(k0 + r0.reverse() =~= kept@ + rest@.reverse());
        }
        assert(kept@ + rest@.reverse() =~= kept@);
        assert(rename_run(trees, flags, renames@, key_texts(rescanned_keys@)));
        (kept, tree, applied)
    } else {
        assert(rename_run(trees, flags, renames@, key_texts(rescanned_keys@)));
        (deleted_paths, tree, applied)
    }
}

} // verus!
