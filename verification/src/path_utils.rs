//! Normalised path keys: the case-insensitive, separator-agnostic form under
//! which every scanned directory is indexed and compared.
use vstd::prelude::*;
use crate::text::{
    ascii_lower, chars_eq, chars_of, chars_starts_with, count_char, count_char_in, is_prefix_of, is_sep,
    lower_char, replace_char, replace_char_str, string_from_chars, to_ascii_lowercase,
};

verus! {

/// Number of bytes that `c` takes in UTF-8.
pub open spec fn char_utf8_len(c: char) -> nat {
    if (c as u32) < 0x80 {
        1
    } else if (c as u32) < 0x800 {
        2
    } else if (c as u32) < 0x10000 {
        3
    } else {
        4
    }
}

/// Number of bytes that `s` takes in UTF-8.
pub open spec fn utf8_len(s: Seq<char>) -> nat
    decreases s.len(),
{
    if s.len() == 0 {
        0
    } else {
        utf8_len(s.drop_last()) + char_utf8_len(s.last())
    }
}

/// A Windows volume root in normalised form: `x:\` (three bytes), or a UNC
/// prefix such as `\\server\share\` that holds at most three backslashes.
pub open spec fn is_windows_root(t: Seq<char>) -> bool {
    if utf8_len(t) == 3 {
        t.len() == 3 && t[1] == ':' && t[2] == '\\'
    } else {
        is_prefix_of(seq!['\\', '\\'], t) && count_char(t, '\\') <= 3
    }
}

/// Removes trailing backslashes until the text is empty, ends otherwise, or
/// is a volume root.
pub open spec fn strip_trailing_backslashes(t: Seq<char>) -> Seq<char>
    decreases t.len(),
{
    if t.len() > 0 && t.last() == '\\' && !is_windows_root(t) {
        strip_trailing_backslashes(t.drop_last())
    } else {
        t
    }
}

/// The normalised key of a path: `/` becomes `\`, ASCII letters are
/// lowercased and trailing backslashes are dropped (a root keeps its own).
pub open spec fn path_key(p: Seq<char>) -> Seq<char> {
    strip_trailing_backslashes(ascii_lower(replace_char(p, '/', '\\')))
}

/// `candidate` names `prefix` itself or a path below it.
pub open spec fn key_prefix_holds(candidate: Seq<char>, prefix: Seq<char>) -> bool {
    &&& prefix.len() > 0
    &&& (candidate == prefix || (is_prefix_of(prefix, candidate) && (is_sep(prefix.last()) || (
    candidate.len() > prefix.len() && is_sep(candidate[prefix.len() as int])))))
}

pub fn is_path_separator(c: char) -> (r: bool)
    ensures
        r == is_sep(c),
{
    c == '\\' || c == '/'
}

/// Whether the UTF-8 form of `v` is exactly three bytes long.
fn utf8_len_is_three(v: &[char]) -> (r: bool)
    ensures
        r == (utf8_len(v@) == 3),
{
    let mut total: usize = 0;
    let mut i: usize = 0;
    while i < v.len()
        invariant
            i <= v.len(),
            total == utf8_len(v@.take(i as int)),
            total <= 3,
        decreases v.len() - i,
    {
        assert(v@.take(i as int + 1).drop_last() =~= v@.take(i as int));
        let c = v[i] as u32;
        let w: usize = if c < 0x80 {
            1
        } else if c < 0x800 {
            2
        } else if c < 0x10000 {
            3
        } else {
            4
        };
        if total + w > 3 {
            proof {
                lemma_utf8_len_prefix_monotone(v@, i as int + 1);
            }
            return false;
        }
        total = total + w;
        i = i + 1;
    }
    assert(v@.take(v.len() as int) =~= v@);
    total == 3
}

/// Whether the UTF-8 form of `v` is longer than three bytes.
pub fn utf8_len_exceeds_three(v: &[char]) -> (r: bool)
    ensures
        r == (utf8_len(v@) > 3),
{
    let mut total: usize = 0;
    let mut i: usize = 0;
    while i < v.len()
        invariant
            i <= v.len(),
            total == utf8_len(v@.take(i as int)),
            total <= 3,
        decreases v.len() - i,
    {
        assert(v@.take(i as int + 1).drop_last() =~= v@.take(i as int));
        let c = v[i] as u32;
        let w: usize = if c < 0x80 {
            1
        } else if c < 0x800 {
            2
        } else if c < 0x10000 {
            3
        } else {
            4
        };
        if total + w > 3 {
            proof {
                lemma_utf8_len_prefix_monotone(v@, i as int + 1);
            }
            return true;
        }
        total = total + w;
        i = i + 1;
    }
    assert(v@.take(v.len() as int) =~= v@);
    false
}

proof fn lemma_utf8_len_prefix_monotone(s: Seq<char>, k: int)
    requires
        0 <= k <= s.len(),
    ensures
        utf8_len(s.take(k)) <= utf8_len(s),
    decreases s.len(),
{
    if k < s.len() {
        assert(s.drop_last().take(k) =~= s.take(k));
        lemma_utf8_len_prefix_monotone(s.drop_last(), k);
    } else {
        assert(s.take(k) =~= s);
    }
}

/// Whether a normalised text is a volume root (see [`is_windows_root`]).
pub fn is_windows_root_chars(t: &[char]) -> (r: bool)
    ensures
        r == is_windows_root(t@),
{
    if utf8_len_is_three(t) {
        return t.len() == 3 && t[1] == ':' && t[2] == '\\';
    }
    let unc: [char; 2] = ['\\', '\\'];
    assert(unc@ =~= seq!['\\', '\\']);
    if !chars_starts_with(t, &unc) {
        return false;
    }
    count_char_in(t, '\\') <= 3
}

/// The normalised key of a path text.
pub fn normalized_path_key_str(path: &str) -> (r: String)
    ensures
        r@ == path_key(path@),
{
    let replaced = replace_char_str(path, '/', '\\');
    let lowered = to_ascii_lowercase(replaced.as_str());
    let mut v = chars_of(lowered.as_str());
    while v.len() > 0 && v[v.len() - 1] == '\\' && !is_windows_root_chars(v.as_slice())
        invariant
            strip_trailing_backslashes(v@) == path_key(path@),
        decreases v.len(),
    {
        let _ = v.pop();
    }
    string_from_chars(v.as_slice())
}

/// The normalised key of a path (same as [`normalized_path_key_str`]).
pub fn normalized_path_key(path: &str) -> (r: String)
    ensures
        r@ == path_key(path@),
{
    normalized_path_key_str(path)
}

/// Whether `candidate_key` names `prefix_key` itself or a path below it; an
/// empty prefix matches nothing.
pub fn normalized_path_starts_with(candidate_key: &str, prefix_key: &str) -> (r: bool)
    ensures
        r == key_prefix_holds(candidate_key@, prefix_key@),
{
    let c = chars_of(candidate_key);
    let p = chars_of(prefix_key);
    if p.len() == 0 {
        return false;
    }
    if chars_eq(c.as_slice(), p.as_slice()) {
        return true;
    }
    if !chars_starts_with(c.as_slice(), p.as_slice()) {
        return false;
    }
    if is_path_separator(p[p.len() - 1]) {
        return true;
    }
    c.len() > p.len() && is_path_separator(c[p.len()])
}

/// Length of the drive prefix (`C:`) of a path, or zero.
pub open spec fn drive_prefix_len(v: Seq<char>) -> int {
    if v.len() >= 2 && v[1] == ':' && (('a' <= v[0] && v[0] <= 'z') || ('A' <= v[0] && v[0] <= 'Z')) {
        2
    } else {
        0
    }
}

/// End of the root of a path: the drive prefix and one separator after it.
pub open spec fn root_end_of(v: Seq<char>) -> int {
    let pre = drive_prefix_len(v);
    if v.len() > pre && is_sep(v[pre]) {
        pre + 1
    } else {
        pre
    }
}

/// End of the name that starts at `i`: the next separator, or the end.
pub open spec fn name_end(v: Seq<char>, i: int) -> int
    decreases v.len() - i,
{
    if i < 0 || i >= v.len() || is_sep(v[i]) {
        i
    } else {
        name_end(v, i + 1)
    }
}

pub proof fn lemma_name_end_bounds(v: Seq<char>, i: int)
    requires
        0 <= i <= v.len(),
    ensures
        i <= name_end(v, i) <= v.len(),
        forall|k: int| i <= k < name_end(v, i) ==> !is_sep(#[trigger] v[k]),
        name_end(v, i) < v.len() ==> is_sep(v[name_end(v, i)]),
    decreases v.len() - i,
{
    if i < v.len() && !is_sep(v[i]) {
        lemma_name_end_bounds(v, i + 1);
    }
}

/// The names of a path from position `i` on: the runs between separators,
/// `.` left out.
pub open spec fn names_from(v: Seq<char>, i: int) -> Seq<Seq<char>>
    decreases v.len() - i,
{
    if i < 0 || i >= v.len() {
        seq![]
    } else if is_sep(v[i]) {
        names_from(v, i + 1)
    } else {
        let e = name_end(v, i + 1);
        proof {
            lemma_name_end_bounds(v, i + 1);
        }
        let rest = names_from(v, e);
        if v.subrange(i, e) == seq!['.'] {
            rest
        } else {
            seq![v.subrange(i, e)] + rest
        }
    }
}

/// The components of a Windows path as `Path::components` yields them: the
/// drive (`C:`), the root (`\\`) and each name but `.`.
pub open spec fn path_components(v: Seq<char>) -> Seq<Seq<char>> {
    let pre = drive_prefix_len(v);
    let drive: Seq<Seq<char>> = if pre == 2 { seq![v.take(2)] } else { seq![] };
    let root: Seq<Seq<char>> = if root_end_of(v) > pre { seq![seq!['\\']] } else { seq![] };
    drive + root + names_from(v, root_end_of(v))
}

/// `p` is a leading part of `s`.
pub open spec fn seq_starts_with(s: Seq<Seq<char>>, p: Seq<Seq<char>>) -> bool {
    p.len() <= s.len() && s.take(p.len() as int) == p
}

/// The views of a sequence of character vectors.
pub open spec fn char_vec_views(s: Seq<Vec<char>>) -> Seq<Seq<char>> {
    Seq::new(s.len(), |i: int| s[i]@)
}

pub fn push_names(v: &Vec<char>, start: usize, out: &mut Vec<Vec<char>>)
    requires
        start <= v.len(),
    ensures
        char_vec_views(final(out)@) == char_vec_views(old(out)@) + names_from(v@, start as int),
{
    let ghost base = char_vec_views(old(out)@);
    let mut i = start;
    while i < v.len()
        invariant
            start <= i <= v.len(),
            base == char_vec_views(old(out)@),
            base + names_from(v@, start as int) == char_vec_views(out@) + names_from(v@, i as int),
        decreases v.len() - i,
    {
        if v[i] == '\\' || v[i] == '/' {
            i = i + 1;
        } else {
            let mut e = i + 1;
            proof {
                lemma_name_end_bounds(v@, i as int + 1);
            }
            while e < v.len() && !(v[e] == '\\' || v[e] == '/')
                invariant
                    i < e <= v.len(),
                    name_end(v@, e as int) == name_end(v@, i as int + 1),
                decreases v.len() - e,
            {
                e = e + 1;
            }
            let mut name: Vec<char> = Vec::new();
            let mut k = i;
            while k < e
                invariant
                    i <= k <= e <= v.len(),
                    name@ == v@.subrange(i as int, k as int),
                decreases e - k,
            {
                name.push(v[k]);
                k = k + 1;
                assert(name@ =~= v@.subrange(i as int, k as int));
            }
            let ghost before = char_vec_views(out@);
            let is_dot = name.len() == 1 && name[0] == '.';
            assert(is_dot == (v@.subrange(i as int, e as int) =~= seq!['.']));
            if !is_dot {
                out.push(name);
                assert(char_vec_views(out@) =~= before + seq![v@.subrange(i as int, e as int)]);
            }
            i = e;
        }
    }
}

/// The components of a path, as character vectors.
pub fn components_of(path: &str) -> (r: Vec<Vec<char>>)
    ensures
        char_vec_views(r@) == path_components(path@),
{
    let v = chars_of(path);
    let mut out: Vec<Vec<char>> = Vec::new();
    let pre: usize = if v.len() >= 2 && v[1] == ':' && (('a' <= v[0] && v[0] <= 'z') || ('A' <= v[0] && v[0] <= 'Z')) {
        2
    } else {
        0
    };
    if pre == 2 {
        let mut d: Vec<char> = Vec::new();
        d.push(v[0]);
        d.push(v[1]);
        assert(d@ =~= v@.take(2));
        out.push(d);
    }
    let root_end: usize = if v.len() > pre && (v[pre] == '\\' || v[pre] == '/') {
        let mut r: Vec<char> = Vec::new();
        r.push('\\');
        out.push(r);
        pre + 1
    } else {
        pre
    };
    proof {
        let pre_i = drive_prefix_len(v@);
        let drive: Seq<Seq<char>> = if pre_i == 2 { seq![v@.take(2)] } else { seq![] };
        let root: Seq<Seq<char>> = if root_end_of(v@) > pre_i { seq![seq!['\\']] } else { seq![] };
        assert(char_vec_views(out@) =~= drive + root);
    }
    assert(root_end == root_end_of(v@));
    push_names(&v, root_end, &mut out);
    out
}

/// Whether the components of `candidate` begin with those of `prefix`,
/// letter case ignored.
pub fn path_components_start_with(candidate: &str, prefix: &str) -> (r: bool)
    ensures
        r == seq_starts_with(path_components(ascii_lower(candidate@)), path_components(ascii_lower(prefix@))),
{
    let lc = to_ascii_lowercase(candidate);
    let lp = to_ascii_lowercase(prefix);
    let cc = components_of(lc.as_str());
    let pc = components_of(lp.as_str());
    let ghost cs = char_vec_views(cc@);
    let ghost ps = char_vec_views(pc@);
    if pc.len() > cc.len() {
        return false;
    }
    let mut i: usize = 0;
    while i < pc.len()
        invariant
            i <= pc.len() <= cc.len(),
            cs == char_vec_views(cc@),
            ps == char_vec_views(pc@),
            cs == path_components(ascii_lower(candidate@)),
            ps == path_components(ascii_lower(prefix@)),
            forall|k: int| 0 <= k < i ==> cs[k] == ps[k],
        decreases pc.len() - i,
    {
        if !chars_eq(cc[i].as_slice(), pc[i].as_slice()) {
            assert(cs[i as int] == cc@[i as int]@);
            assert(ps[i as int] == pc@[i as int]@);
            assert(cs.take(ps.len() as int)[i as int] != ps[i as int]);
            assert(!seq_starts_with(cs, ps));
            return false;
        }
        i = i + 1;
    }
    assert(cs.take(ps.len() as int) =~= ps);
    true
}

// ---------------------------------------------------------------------------
// Laws
// ---------------------------------------------------------------------------

proof fn lemma_strip_idempotent(t: Seq<char>)
    ensures
        strip_trailing_backslashes(strip_trailing_backslashes(t)) == strip_trailing_backslashes(t),
    decreases t.len(),
{
    if t.len() > 0 && t.last() == '\\' && !is_windows_root(t) {
        lemma_strip_idempotent(t.drop_last());
    }
}

proof fn lemma_strip_is_prefix(t: Seq<char>)
    ensures
        is_prefix_of(strip_trailing_backslashes(t), t),
    decreases t.len(),
{
    if t.len() > 0 && t.last() == '\\' && !is_windows_root(t) {
        lemma_strip_is_prefix(t.drop_last());
        let s = strip_trailing_backslashes(t.drop_last());
        assert(t.subrange(0, s.len() as int) =~= t.drop_last().subrange(0, s.len() as int));
    } else {
        assert(t.subrange(0, t.len() as int) =~= t);
    }
}

/// A key is its own normal form: normalising a normalised key changes nothing.
pub proof fn law_path_key_idempotent(p: Seq<char>)
    ensures
        path_key(path_key(p)) == path_key(p),
{
    let k = path_key(p);
    let base = ascii_lower(replace_char(p, '/', '\\'));
    lemma_strip_is_prefix(base);
    assert forall|i: int| 0 <= i < k.len() implies k[i] != '/' && !('A' <= k[i] && k[i] <= 'Z') by {
        assert(k[i] == base.subrange(0, k.len() as int)[i]);
        assert(base[i] == lower_char(replace_char(p, '/', '\\')[i]));
    }
    assert(replace_char(k, '/', '\\') =~= k);
    assert(ascii_lower(k) =~= k);
    lemma_strip_idempotent(base);
}

/// Two spellings of one path that differ only in letter case and in the
/// kind of separator have the same key.
pub proof fn law_path_key_ignores_case_and_separator(a: Seq<char>, b: Seq<char>)
    requires
        ascii_lower(replace_char(a, '/', '\\')) == ascii_lower(replace_char(b, '/', '\\')),
    ensures
        path_key(a) == path_key(b),
{
}

/// Every non-empty key covers itself.
pub proof fn law_key_prefix_reflexive(k: Seq<char>)
    requires
        k.len() > 0,
    ensures
        key_prefix_holds(k, k),
{
}

} // verus!
