//! The directories the change journal reports, put in the order the
//! incremental scan rescans them: below the scan root only, ordered by
//! depth and then as paths order, and for recursive rescans reduced to the
//! deepest ones.
use vstd::prelude::*;
use crate::path_utils::{
    char_vec_views, drive_prefix_len, key_prefix_holds, names_from, normalized_path_key_str, normalized_path_starts_with,
    path_key, push_names, root_end_of,
};
use crate::text::{
    chars_of, lemma_lex_irreflexive, lemma_lex_transitive, lemma_lex_trichotomy, lex_lt, str_eq, str_less, string_from_chars,
    upper, upper_char,
};

verus! {

/// A name component as paths order them: `..` (kind 3) before names (kind
/// 4).
pub open spec fn name_component(n: Seq<char>) -> (int, Seq<char>) {
    if n == seq!['.', '.'] {
        (3, n)
    } else {
        (4, n)
    }
}

/// The components of a Windows path with the kind `Path` orders them by: a
/// drive (kind 0, its letter upper-cased), the root (kind 1), then the
/// names.
pub open spec fn ordered_components(v: Seq<char>) -> Seq<(int, Seq<char>)> {
    let pre = drive_prefix_len(v);
    let drive: Seq<(int, Seq<char>)> = if pre == 2 { seq![(0int, seq![upper_char(v[0]), ':'])] } else { seq![] };
    let root: Seq<(int, Seq<char>)> = if root_end_of(v) > pre { seq![(1int, seq!['\\'])] } else { seq![] };
    drive + root + names_from(v, root_end_of(v)).map_values(|n: Seq<char>| name_component(n))
}

/// Component `a` comes before component `b`.
pub open spec fn comp_lt(a: (int, Seq<char>), b: (int, Seq<char>)) -> bool {
    a.0 < b.0 || (a.0 == b.0 && lex_lt(a.1, b.1))
}

/// Path `a` comes before path `b`: at the first different component, by
/// that component; else the shorter first.
pub open spec fn comps_lt(a: Seq<(int, Seq<char>)>, b: Seq<(int, Seq<char>)>) -> bool
    decreases a.len(),
{
    if a.len() == 0 {
        b.len() > 0
    } else if b.len() == 0 {
        false
    } else if a[0] != b[0] {
        comp_lt(a[0], b[0])
    } else {
        comps_lt(a.drop_first(), b.drop_first())
    }
}

proof fn lemma_comp_order(a: (int, Seq<char>), b: (int, Seq<char>))
    ensures
        a == b || comp_lt(a, b) || comp_lt(b, a),
        !(comp_lt(a, b) && comp_lt(b, a)),
        !comp_lt(a, a),
{
    lemma_lex_trichotomy(a.1, b.1);
    lemma_lex_irreflexive(a.1);
}

proof fn lemma_comps_trichotomy(a: Seq<(int, Seq<char>)>, b: Seq<(int, Seq<char>)>)
    ensures
        comps_lt(a, b) || a == b || comps_lt(b, a),
        !(comps_lt(a, b) && comps_lt(b, a)),
        !comps_lt(a, a),
    decreases a.len(),
{
    if a.len() > 0 && b.len() > 0 {
        lemma_comp_order(a[0], b[0]);
        if a[0] == b[0] {
            lemma_comps_trichotomy(a.drop_first(), b.drop_first());
            if a.drop_first() == b.drop_first() {
                assert(a =~= seq![a[0]] + a.drop_first());
                assert(b =~= seq![b[0]] + b.drop_first());
            }
        }
    } else if a.len() == 0 && b.len() == 0 {
        assert(a =~= b);
    }
    if a.len() > 0 {
        lemma_comps_trichotomy(a.drop_first(), a.drop_first());
    }
}

proof fn lemma_comps_transitive(a: Seq<(int, Seq<char>)>, b: Seq<(int, Seq<char>)>, c: Seq<(int, Seq<char>)>)
    requires
        comps_lt(a, b),
        comps_lt(b, c),
    ensures
        comps_lt(a, c),
    decreases a.len(),
{
    if a.len() > 0 && b.len() > 0 && c.len() > 0 {
        if a[0] == b[0] && b[0] == c[0] {
            lemma_comps_transitive(a.drop_first(), b.drop_first(), c.drop_first());
        } else if comp_lt(a[0], b[0]) && comp_lt(b[0], c[0]) {
            if a[0].0 == b[0].0 && b[0].0 == c[0].0 {
                lemma_lex_transitive(a[0].1, b[0].1, c[0].1);
            }
            lemma_comp_order(a[0], c[0]);
        } else if a[0] == b[0] {
            lemma_comp_order(a[0], c[0]);
        } else {
            lemma_comp_order(a[0], c[0]);
        }
    }
}

/// The components of an exec list, as values.
pub open spec fn comps_view(s: Seq<(u8, String)>) -> Seq<(int, Seq<char>)> {
    Seq::new(s.len(), |i: int| (s[i].0 as int, s[i].1@))
}

/// The ordered components of a path (see [`ordered_components`]).
pub fn ordered_components_of(path: &str) -> (r: Vec<(u8, String)>)
    ensures
        comps_view(r@) == ordered_components(path@),
{
    let v = chars_of(path);
    let mut out: Vec<(u8, String)> = Vec::new();
    let pre: usize = if v.len() >= 2 && v[1] == ':' && (('a' <= v[0] && v[0] <= 'z') || ('A' <= v[0] && v[0] <= 'Z')) {
        2
    } else {
        0
    };
    if pre == 2 {
        let d: [char; 2] = [upper(v[0]), ':'];
        let s = string_from_chars(&d);
        assert(d@ =~= seq![upper_char(v@[0]), ':']);
        out.push((0, s));
    }
    let root_end: usize = if v.len() > pre && (v[pre] == '\\' || v[pre] == '/') {
        let r: [char; 1] = ['\\'];
        let s = string_from_chars(&r);
        assert(r@ =~= seq!['\\']);
        out.push((1, s));
        pre + 1
    } else {
        pre
    };
    assert(root_end == root_end_of(v@));
    let ghost head = comps_view(out@);
    proof {
        let drive: Seq<(int, Seq<char>)> = if pre == 2 { seq![(0int, seq![upper_char(v@[0]), ':'])] } else { seq![] };
        let root: Seq<(int, Seq<char>)> = if root_end_of(v@) > pre { seq![(1int, seq!['\\'])] } else { seq![] };
        assert(head =~= drive + root);
    }
    let mut names: Vec<Vec<char>> = Vec::new();
    push_names(&v, root_end, &mut names);
    let ghost nv = names_from(v@, root_end as int);
    assert(char_vec_views(names@) =~= nv);
    let mut i: usize = 0;
    while i < names.len()
        invariant
            i <= names@.len(),
            char_vec_views(names@) == nv,
            comps_view(out@) == head + nv.take(i as int).map_values(|n: Seq<char>| name_component(n)),
        decreases names@.len() - i,
    {
        let n = &names[i];
        assert(n@ == nv[i as int]);
        let is_parent = n.len() == 2 && n[0] == '.' && n[1] == '.';
        assert(is_parent == (n@ == seq!['.', '.'])) by {
            if n@.len() == 2 && n@[0] == '.' && n@[1] == '.' {
                assert(n@ =~= seq!['.', '.']);
            }
        }
        let tag: u8 = if is_parent { 3 } else { 4 };
        let ghost before = comps_view(out@);
        out.push((tag, string_from_chars(n.as_slice())));
        assert(nv.take(i + 1).map_values(|n: Seq<char>| name_component(n)) =~= nv.take(i as int).map_values(
            |n: Seq<char>| name_component(n),
        ).push(name_component(nv[i as int])));
        assert(comps_view(out@) =~= before.push(name_component(nv[i as int])));
        i = i + 1;
    }
    assert(nv.take(names@.len() as int) =~= nv);
    out
}

/// Whether path `a` comes before path `b` (see [`comps_lt`]).
pub fn comps_less(a: &Vec<(u8, String)>, b: &Vec<(u8, String)>) -> (r: bool)
    ensures
        r == comps_lt(comps_view(a@), comps_view(b@)),
{
    let ghost av = comps_view(a@);
    let ghost bv = comps_view(b@);
    let mut i: usize = 0;
    assert(av.skip(0) =~= av);
    assert(bv.skip(0) =~= bv);
    while i < a.len() && i < b.len() && a[i].0 == b[i].0 && str_eq(a[i].1.as_str(), b[i].1.as_str())
        invariant
            i <= a@.len(),
            i <= b@.len(),
            av == comps_view(a@),
            bv == comps_view(b@),
            comps_lt(av, bv) == comps_lt(av.skip(i as int), bv.skip(i as int)),
        decreases a@.len() - i,
    {
        proof {
            let ghost sa = av.skip(i as int);
            let ghost sb = bv.skip(i as int);
            assert(sa[0] == av[i as int] && sb[0] == bv[i as int]);
            assert(sa.drop_first() =~= av.skip(i as int + 1));
            assert(sb.drop_first() =~= bv.skip(i as int + 1));
        }
        i = i + 1;
    }
    let ghost sa = av.skip(i as int);
    let ghost sb = bv.skip(i as int);
    if i == a.len() {
        assert(sa.len() == 0);
        return i < b.len();
    }
    if i == b.len() {
        assert(sb.len() == 0);
        return false;
    }
    assert(sa[0] == av[i as int] && sb[0] == bv[i as int]);
    assert(sa[0] != sb[0]);
    a[i].0 < b[i].0 || (a[i].0 == b[i].0 && str_less(a[i].1.as_str(), b[i].1.as_str()))
}

/// Entry `a` (depth `da`, components `ca`, position `ia`) goes before
/// entry `b`: the deeper first when `deepest_first`, else the shallower
/// first; at equal depth by path order; equal paths by position.
pub open spec fn entry_before(
    deepest_first: bool,
    da: int,
    ca: Seq<(int, Seq<char>)>,
    ia: int,
    db: int,
    cb: Seq<(int, Seq<char>)>,
    ib: int,
) -> bool {
    ||| (if deepest_first { da > db } else { da < db })
    ||| (da == db && comps_lt(ca, cb))
    ||| (da == db && ca == cb && ia < ib)
}

/// The depth of a path: its number of components.
pub open spec fn depth_of(t: Seq<char>) -> int {
    ordered_components(t).len() as int
}

/// `p` lists every position of `paths` once, in the order of a stable sort
/// by depth (deepest or shallowest first) and then path order.
pub open spec fn is_path_order(deepest_first: bool, paths: Seq<Seq<char>>, p: Seq<usize>) -> bool {
    &&& p.len() == paths.len()
    &&& forall|k: int| 0 <= k < p.len() ==> #[trigger] p[k] < paths.len()
    &&& forall|a: int, b: int| 0 <= a < b < p.len() ==> p[a] != p[b]
    &&& forall|a: int, b: int|
        0 <= a < b < p.len() ==> entry_before(
            deepest_first,
            depth_of(paths[#[trigger] p[a] as int]),
            ordered_components(paths[p[a] as int]),
            p[a] as int,
            depth_of(paths[#[trigger] p[b] as int]),
            ordered_components(paths[p[b] as int]),
            p[b] as int,
        )
}

proof fn lemma_entry_before_transitive(
    d: bool,
    da: int,
    ca: Seq<(int, Seq<char>)>,
    ia: int,
    db: int,
    cb: Seq<(int, Seq<char>)>,
    ib: int,
    dc: int,
    cc: Seq<(int, Seq<char>)>,
    ic: int,
)
    requires
        entry_before(d, da, ca, ia, db, cb, ib),
        entry_before(d, db, cb, ib, dc, cc, ic),
    ensures
        entry_before(d, da, ca, ia, dc, cc, ic),
{
    if da == db && db == dc {
        if comps_lt(ca, cb) && comps_lt(cb, cc) {
            lemma_comps_transitive(ca, cb, cc);
        }
    }
}

/// The positions of `paths`, in path order (see [`is_path_order`]).
fn path_order(deepest_first: bool, paths: &Vec<String>) -> (p: Vec<usize>)
    ensures
        is_path_order(deepest_first, Seq::new(paths@.len(), |k: int| paths@[k]@), p@),
{
    let ghost ts = Seq::new(paths@.len(), |k: int| paths@[k]@);
    let n = paths.len();
    let mut comps: Vec<Vec<(u8, String)>> = Vec::new();
    let mut j: usize = 0;
    while j < n
        invariant
            j <= n,
            n == paths@.len(),
            ts == Seq::new(paths@.len(), |k: int| paths@[k]@),
            comps@.len() == j,
            forall|q: int| 0 <= q < j ==> comps_view(#[trigger] comps@[q]@) == ordered_components(ts[q]),
        decreases n - j,
    {
        comps.push(ordered_components_of(paths[j].as_str()));
        j = j + 1;
    }
    let mut p: Vec<usize> = Vec::new();
    let mut i: usize = 0;
    while i < n
        invariant
            i <= n,
            n == paths@.len(),
            comps@.len() == n,
            ts == Seq::new(paths@.len(), |k: int| paths@[k]@),
            forall|q: int| 0 <= q < n ==> comps_view(#[trigger] comps@[q]@) == ordered_components(ts[q]),
            p@.len() == i,
            forall|k: int| 0 <= k < p@.len() ==> #[trigger] p@[k] < i,
            forall|a: int, b: int| 0 <= a < b < p@.len() ==> p@[a] != p@[b],
            forall|a: int, b: int|
                0 <= a < b < p@.len() ==> entry_before(
                    deepest_first,
                    depth_of(ts[#[trigger] p@[a] as int]),
                    ordered_components(ts[p@[a] as int]),
                    p@[a] as int,
                    depth_of(ts[#[trigger] p@[b] as int]),
                    ordered_components(ts[p@[b] as int]),
                    p@[b] as int,
                ),
        decreases n - i,
    {
        let di = comps[i].len();
        let mut pos: usize = 0;
        while pos < p.len() && !goes_before(deepest_first, di, &comps[i], comps[p[pos]].len(), &comps[p[pos]])
            invariant
                pos <= p@.len(),
                p@.len() == i,
                i < n,
                comps@.len() == n,
                di == comps@[i as int]@.len(),
                forall|q: int| 0 <= q < n ==> comps_view(#[trigger] comps@[q]@) == ordered_components(ts[q]),
                forall|k: int| 0 <= k < p@.len() ==> #[trigger] p@[k] < i,
                forall|k: int| 0 <= k < pos ==> entry_before(
                    deepest_first,
                    depth_of(ts[#[trigger] p@[k] as int]),
                    ordered_components(ts[p@[k] as int]),
                    p@[k] as int,
                    depth_of(ts[i as int]),
                    ordered_components(ts[i as int]),
                    i as int,
                ),
            decreases p@.len() - pos,
        {
            proof {
                let q = p@[pos as int] as int;
                assert(comps_view(comps@[q]@).len() == comps@[q]@.len());
                assert(comps_view(comps@[i as int]@).len() == comps@[i as int]@.len());
                lemma_comps_trichotomy(ordered_components(ts[q]), ordered_components(ts[i as int]));
            }
            pos = pos + 1;
        }
        let ghost before = p@;
        proof {
            assert(comps_view(comps@[i as int]@).len() == comps@[i as int]@.len());
            assert forall|k: int| pos <= k < before.len() implies entry_before(
                deepest_first,
                depth_of(ts[i as int]),
                ordered_components(ts[i as int]),
                i as int,
                depth_of(ts[#[trigger] before[k] as int]),
                ordered_components(ts[before[k] as int]),
                before[k] as int,
            ) by {
                let q = before[pos as int] as int;
                assert(comps_view(comps@[q]@).len() == comps@[q]@.len());
                assert(entry_before(
                    deepest_first,
                    depth_of(ts[i as int]),
                    ordered_components(ts[i as int]),
                    i as int,
                    depth_of(ts[q]),
                    ordered_components(ts[q]),
                    q,
                ));
                if k > pos {
                    let r = before[k] as int;
                    assert(entry_before(
                        deepest_first,
                        depth_of(ts[q]),
                        ordered_components(ts[q]),
                        q,
                        depth_of(ts[r]),
                        ordered_components(ts[r]),
                        r,
                    ));
                    lemma_entry_before_transitive(
                        deepest_first,
                        depth_of(ts[i as int]),
                        ordered_components(ts[i as int]),
                        i as int,
                        depth_of(ts[q]),
                        ordered_components(ts[q]),
                        q,
                        depth_of(ts[r]),
                        ordered_components(ts[r]),
                        r,
                    );
                }
            }
        }
        p.insert(pos, i);
        proof {
            assert forall|k: int| 0 <= k < p@.len() implies #[trigger] p@[k] < i + 1 by {
                if k < pos {
                    assert(p@[k] == before[k]);
                } else if k > pos {
                    assert(p@[k] == before[k - 1]);
                }
            }
            assert forall|a: int, b: int| 0 <= a < b < p@.len() implies p@[a] != p@[b] by {
                if a < pos && b < pos {
                    assert(p@[a] == before[a] && p@[b] == before[b]);
                } else if a < pos && b == pos {
                    assert(p@[a] == before[a]);
                } else if a < pos {
                    assert(p@[a] == before[a] && p@[b] == before[b - 1]);
                } else if a == pos {
                    assert(p@[b] == before[b - 1]);
                } else {
                    assert(p@[a] == before[a - 1] && p@[b] == before[b - 1]);
                }
            }
            assert forall|a: int, b: int| 0 <= a < b < p@.len() implies entry_before(
                deepest_first,
                depth_of(ts[#[trigger] p@[a] as int]),
                ordered_components(ts[p@[a] as int]),
                p@[a] as int,
                depth_of(ts[#[trigger] p@[b] as int]),
                ordered_components(ts[p@[b] as int]),
                p@[b] as int,
            ) by {
                if a < pos && b < pos {
                    assert(p@[a] == before[a] && p@[b] == before[b]);
                } else if a < pos && b == pos {
                    assert(p@[a] == before[a]);
                } else if a < pos {
                    assert(p@[a] == before[a] && p@[b] == before[b - 1]);
                } else if a == pos {
                    assert(p@[b] == before[b - 1]);
                } else {
                    assert(p@[a] == before[a - 1] && p@[b] == before[b - 1]);
                }
            }
        }
        i = i + 1;
    }
    p
}

/// Whether the entry of depth `da` and components `ca`, listed after the
/// one of depth `db` and components `cb`, goes before it.
fn goes_before(deepest_first: bool, da: usize, ca: &Vec<(u8, String)>, db: usize, cb: &Vec<(u8, String)>) -> (r: bool)
    ensures
        r == ((if deepest_first { da > db } else { da < db }) || (da == db && comps_lt(comps_view(ca@), comps_view(cb@)))),
{
    if deepest_first && da > db {
        return true;
    }
    if !deepest_first && da < db {
        return true;
    }
    da == db && comps_less(ca, cb)
}

/// Whether two component lists are equal.
fn comps_equal(a: &Vec<(u8, String)>, b: &Vec<(u8, String)>) -> (r: bool)
    ensures
        r == (comps_view(a@) == comps_view(b@)),
{
    if a.len() != b.len() {
        assert(comps_view(a@).len() != comps_view(b@).len());
        return false;
    }
    let mut i: usize = 0;
    while i < a.len()
        invariant
            i <= a@.len(),
            a@.len() == b@.len(),
            forall|q: int| 0 <= q < i ==> comps_view(a@)[q] == comps_view(b@)[q],
        decreases a@.len() - i,
    {
        if a[i].0 != b[i].0 || !str_eq(a[i].1.as_str(), b[i].1.as_str()) {
            assert(comps_view(a@)[i as int] != comps_view(b@)[i as int]);
            return false;
        }
        i = i + 1;
    }
    assert(comps_view(a@) =~= comps_view(b@));
    true
}

/// A reported directory is rescanned when it lies below the scan root (by
/// key) and is not the root itself (by components).
pub open spec fn below_root(c: Seq<char>, root: Seq<char>) -> bool {
    ordered_components(c) != ordered_components(root) && key_prefix_holds(path_key(c), path_key(root))
}

/// The first `n` reported directories that lie below the root, in order.
pub open spec fn below_root_upto(cands: Seq<Seq<char>>, root: Seq<char>, n: int) -> Seq<Seq<char>>
    decreases n,
{
    if n <= 0 {
        Seq::empty()
    } else if below_root(cands[n - 1], root) {
        below_root_upto(cands, root, n - 1).push(cands[n - 1])
    } else {
        below_root_upto(cands, root, n - 1)
    }
}

fn below_root_paths(root_path: &str, candidates: &Vec<String>) -> (r: Vec<String>)
    ensures
        crate::rules::texts(r@) == below_root_upto(crate::rules::texts(candidates@), root_path@, candidates@.len() as int),
{
    let ghost cs = crate::rules::texts(candidates@);
    let root_comps = ordered_components_of(root_path);
    let root_key = normalized_path_key_str(root_path);
    let mut out: Vec<String> = Vec::new();
    let mut i: usize = 0;
    while i < candidates.len()
        invariant
            i <= candidates@.len(),
            cs == crate::rules::texts(candidates@),
            comps_view(root_comps@) == ordered_components(root_path@),
            root_key@ == path_key(root_path@),
            crate::rules::texts(out@) == below_root_upto(cs, root_path@, i as int),
        decreases candidates@.len() - i,
    {
        let c = candidates[i].as_str();
        let comps = ordered_components_of(c);
        let key = normalized_path_key_str(c);
        if !comps_equal(&comps, &root_comps) && normalized_path_starts_with(key.as_str(), root_key.as_str()) {
            let ghost before = crate::rules::texts(out@);
            out.push(candidates[i].clone());
            assert(crate::rules::texts(out@) =~= before.push(cs[i as int]));
        }
        i = i + 1;
    }
    out
}

/// Keeps, in order, each path no kept path lies at or below: with the
/// deepest paths first this keeps the deepest of each line.
pub open spec fn deepest_kept(s: Seq<Seq<char>>) -> Seq<Seq<char>>
    decreases s.len(),
{
    if s.len() == 0 {
        Seq::empty()
    } else {
        let prev = deepest_kept(s.drop_last());
        if exists|k: int| 0 <= k < prev.len() && key_prefix_holds(path_key(#[trigger] prev[k]), path_key(s.last())) {
            prev
        } else {
            prev.push(s.last())
        }
    }
}

/// The directories to rescan as a whole: those below the root, deepest
/// first then in path order, each dropped when a directory kept before it
/// lies at or below it.
pub fn normalize_recursive_changed_dirs(root_path: &str, candidates: &Vec<String>) -> (r: Vec<String>)
    ensures
        exists|p: Seq<usize>|
            #![trigger is_path_order(true, below_root_upto(crate::rules::texts(candidates@), root_path@, candidates@.len() as int), p)]
            {
                let sel = below_root_upto(crate::rules::texts(candidates@), root_path@, candidates@.len() as int);
                is_path_order(true, sel, p) && crate::rules::texts(r@) == deepest_kept(Seq::new(p.len(), |k: int| sel[p[k] as int]))
            },
{
    let paths = below_root_paths(root_path, candidates);
    let ghost sel = crate::rules::texts(paths@);
    assert(sel =~= Seq::new(paths@.len(), |k: int| paths@[k]@));
    let order = path_order(true, &paths);
    let ghost ordered = Seq::new(order@.len(), |k: int| sel[order@[k] as int]);
    let mut kept: Vec<String> = Vec::new();
    let mut kept_keys: Vec<String> = Vec::new();
    let mut j: usize = 0;
    while j < order.len()
        invariant
            j <= order@.len(),
            is_path_order(true, sel, order@),
            sel == crate::rules::texts(paths@),
            ordered == Seq::new(order@.len(), |k: int| sel[order@[k] as int]),
            crate::rules::texts(kept@) == deepest_kept(ordered.take(j as int)),
            kept_keys@.len() == kept@.len(),
            forall|q: int| 0 <= q < kept@.len() ==> #[trigger] kept_keys@[q]@ == path_key(kept@[q]@),
        decreases order@.len() - j,
    {
        let path = &paths[order[j]];
        let key = normalized_path_key_str(path.as_str());
        let mut covered = false;
        let mut q: usize = 0;
        while q < kept_keys.len()
            invariant
                q <= kept_keys@.len(),
                kept_keys@.len() == kept@.len(),
                forall|x: int| 0 <= x < kept@.len() ==> #[trigger] kept_keys@[x]@ == path_key(kept@[x]@),
                key@ == path_key(path@),
                covered == exists|x: int| 0 <= x < q && key_prefix_holds(path_key(#[trigger] kept@[x]@), key@),
            decreases kept_keys@.len() - q,
        {
            if normalized_path_starts_with(kept_keys[q].as_str(), key.as_str()) {
                covered = true;
            }
            q = q + 1;
        }
        proof {
            let t = ordered.take(j + 1);
            assert(t.drop_last() =~= ordered.take(j as int));
            assert(t.last() == path@);
            let prev = deepest_kept(ordered.take(j as int));
            assert(prev == crate::rules::texts(kept@));
            if covered {
                let x = choose|x: int| 0 <= x < kept@.len() && key_prefix_holds(path_key(kept@[x]@), key@);
                assert(prev[x] == kept@[x]@);
            } else {
                assert forall|x: int| 0 <= x < prev.len() implies !key_prefix_holds(path_key(#[trigger] prev[x]), path_key(t.last())) by {
                    assert(prev[x] == kept@[x]@);
                }
            }
        }
        if !covered {
            let ghost before = crate::rules::texts(kept@);
            kept.push(path.clone());
            kept_keys.push(key);
            assert(crate::rules::texts(kept@) =~= before.push(path@));
        }
        j = j + 1;
    }
    assert(ordered.take(order@.len() as int) =~= ordered);
    kept
}

/// The directories whose own files are rescanned: those below the root,
/// shallowest first then in path order.
pub fn collect_direct_file_changed_dirs(root_path: &str, candidates: &Vec<String>) -> (r: Vec<String>)
    ensures
        exists|p: Seq<usize>|
            #![trigger is_path_order(false, below_root_upto(crate::rules::texts(candidates@), root_path@, candidates@.len() as int), p)]
            {
                let sel = below_root_upto(crate::rules::texts(candidates@), root_path@, candidates@.len() as int);
                is_path_order(false, sel, p) && crate::rules::texts(r@) == Seq::new(p.len(), |k: int| sel[p[k] as int])
            },
{
    let paths = below_root_paths(root_path, candidates);
    let ghost sel = crate::rules::texts(paths@);
    assert(sel =~= Seq::new(paths@.len(), |k: int| paths@[k]@));
    let order = path_order(false, &paths);
    let mut out: Vec<String> = Vec::new();
    let mut j: usize = 0;
    while j < order.len()
        invariant
            j <= order@.len(),
            is_path_order(false, sel, order@),
            sel == crate::rules::texts(paths@),
            out@.len() == j,
            forall|k: int| 0 <= k < j ==> #[trigger] out@[k]@ == sel[order@[k] as int],
        decreases order@.len() - j,
    {
        out.push(paths[order[j]].clone());
        j = j + 1;
    }
    assert(crate::rules::texts(out@) =~= Seq::new(order@.len(), |k: int| sel[order@[k] as int]));
    out
}

/// Keeps, in order, each path that lies at or below no kept path: with the
/// shallowest paths first this keeps the topmost of each line.
pub open spec fn topmost_kept(s: Seq<Seq<char>>) -> Seq<Seq<char>>
    decreases s.len(),
{
    if s.len() == 0 {
        Seq::empty()
    } else {
        let prev = topmost_kept(s.drop_last());
        if exists|k: int| 0 <= k < prev.len() && key_prefix_holds(path_key(s.last()), path_key(#[trigger] prev[k])) {
            prev
        } else {
            prev.push(s.last())
        }
    }
}

/// The directories a journal scan rescans: the recursive ones and then the
/// direct ones, those below the root, shallowest first then in path order,
/// each dropped when it lies at or below one kept before it.
pub fn normalize_changed_dirs(root_path: &str, recursive_dirs: &Vec<String>, direct_file_dirs: &Vec<String>) -> (r: Vec<
    String,
>)
    ensures
        exists|p: Seq<usize>|
            #![trigger is_path_order(false, below_root_upto(crate::rules::texts(recursive_dirs@ + direct_file_dirs@), root_path@, (recursive_dirs@.len() + direct_file_dirs@.len()) as int), p)]
            {
                let sel = below_root_upto(
                    crate::rules::texts(recursive_dirs@ + direct_file_dirs@),
                    root_path@,
                    (recursive_dirs@.len() + direct_file_dirs@.len()) as int,
                );
                is_path_order(false, sel, p) && crate::rules::texts(r@) == topmost_kept(Seq::new(p.len(), |k: int| sel[p[k] as int]))
            },
{
    let ghost joined = crate::rules::texts(recursive_dirs@ + direct_file_dirs@);
    let mut all: Vec<String> = Vec::new();
    let mut i: usize = 0;
    while i < recursive_dirs.len()
        invariant
            i <= recursive_dirs@.len(),
            all@.len() == i,
            forall|q: int| 0 <= q < i ==> #[trigger] all@[q]@ == recursive_dirs@[q]@,
        decreases recursive_dirs@.len() - i,
    {
        all.push(recursive_dirs[i].clone());
        i = i + 1;
    }
    let mut j: usize = 0;
    while j < direct_file_dirs.len()
        invariant
            j <= direct_file_dirs@.len(),
            all@.len() == recursive_dirs@.len() + j,
            forall|q: int| 0 <= q < recursive_dirs@.len() ==> #[trigger] all@[q]@ == recursive_dirs@[q]@,
            forall|q: int| 0 <= q < j ==> #[trigger] all@[recursive_dirs@.len() + q]@ == direct_file_dirs@[q]@,
        decreases direct_file_dirs@.len() - j,
    {
        all.push(direct_file_dirs[j].clone());
        j = j + 1;
    }
    assert(crate::rules::texts(all@) =~= joined) by {
        assert forall|q: int| 0 <= q < all@.len() implies #[trigger] crate::rules::texts(all@)[q] == joined[q] by {
            if q < recursive_dirs@.len() {
                assert((recursive_dirs@ + direct_file_dirs@)[q] == recursive_dirs@[q]);
            } else {
                assert(all@[recursive_dirs@.len() + (q - recursive_dirs@.len())]@ == direct_file_dirs@[q - recursive_dirs@.len()]@);
                assert((recursive_dirs@ + direct_file_dirs@)[q] == direct_file_dirs@[q - recursive_dirs@.len()]);
            }
        }
    }
    let paths = below_root_paths(root_path, &all);
    let ghost sel = crate::rules::texts(paths@);
    assert(sel =~= Seq::new(paths@.len(), |k: int| paths@[k]@));
    let order = path_order(false, &paths);
    let ghost ordered = Seq::new(order@.len(), |k: int| sel[order@[k] as int]);
    let mut kept: Vec<String> = Vec::new();
    let mut kept_keys: Vec<String> = Vec::new();
    let mut j: usize = 0;
    while j < order.len()
        invariant
            j <= order@.len(),
            is_path_order(false, sel, order@),
            sel == crate::rules::texts(paths@),
            ordered == Seq::new(order@.len(), |k: int| sel[order@[k] as int]),
            crate::rules::texts(kept@) == topmost_kept(ordered.take(j as int)),
            kept_keys@.len() == kept@.len(),
            forall|q: int| 0 <= q < kept@.len() ==> #[trigger] kept_keys@[q]@ == path_key(kept@[q]@),
        decreases order@.len() - j,
    {
        let path = &paths[order[j]];
        let key = normalized_path_key_str(path.as_str());
        let mut covered = false;
        let mut q: usize = 0;
        while q < kept_keys.len()
            invariant
                q <= kept_keys@.len(),
                kept_keys@.len() == kept@.len(),
                forall|x: int| 0 <= x < kept@.len() ==> #[trigger] kept_keys@[x]@ == path_key(kept@[x]@),
                key@ == path_key(path@),
                covered == exists|x: int| 0 <= x < q && key_prefix_holds(key@, path_key(#[trigger] kept@[x]@)),
            decreases kept_keys@.len() - q,
        {
            if normalized_path_starts_with(key.as_str(), kept_keys[q].as_str()) {
                covered = true;
            }
            q = q + 1;
        }
        proof {
            let t = ordered.take(j + 1);
            assert(t.drop_last() =~= ordered.take(j as int));
            assert(t.last() == path@);
            let prev = topmost_kept(ordered.take(j as int));
            assert(prev == crate::rules::texts(kept@));
            if covered {
                let x = choose|x: int| 0 <= x < kept@.len() && key_prefix_holds(key@, path_key(kept@[x]@));
                assert(prev[x] == kept@[x]@);
            } else {
                assert forall|x: int| 0 <= x < prev.len() implies !key_prefix_holds(path_key(t.last()), path_key(#[trigger] prev[x])) by {
                    assert(prev[x] == kept@[x]@);
                }
            }
        }
        if !covered {
            let ghost before = crate::rules::texts(kept@);
            kept.push(path.clone());
            kept_keys.push(key);
            assert(crate::rules::texts(kept@) =~= before.push(path@));
        }
        j = j + 1;
    }
    assert(ordered.take(order@.len() as int) =~= ordered);
    kept
}

} // verus!
