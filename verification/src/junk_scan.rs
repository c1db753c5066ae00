//! A junk scan: which rules apply, the file-name patterns rules use, the
//! items found merged by path, and the scan's totals.
use vstd::prelude::*;
use crate::path_utils::{char_utf8_len, utf8_len};
use crate::rules::{JunkCategory, JunkRiskLevel, JunkRule};
use crate::text::{
    ascii_lower, chars_of, chars_eq, chars_occur_at, is_prefix_of, is_suffix_of, occurs_at, owned, replace_char,
    replace_char_str, str_eq, string_from_chars, to_ascii_lowercase, trim_end_char, trim_end_char_str,
};
use crate::tree::sat_u64;

verus! {

// ---------------------------------------------------------------------------
// File-name patterns
// ---------------------------------------------------------------------------

/// The first position from `i` on holding `*` (the length when none does).
pub open spec fn first_star(p: Seq<char>, i: int) -> int
    decreases p.len() - i,
{
    if i >= p.len() {
        p.len() as int
    } else if p[i] == '*' {
        i
    } else {
        first_star(p, i + 1)
    }
}

pub proof fn lemma_first_star(p: Seq<char>, i: int)
    requires
        0 <= i <= p.len(),
    ensures
        i <= first_star(p, i) <= p.len(),
        first_star(p, i) < p.len() ==> p[first_star(p, i)] == '*',
        forall|k: int| i <= k < first_star(p, i) ==> p[k] != '*',
    decreases p.len() - i,
{
    if i < p.len() && p[i] != '*' {
        lemma_first_star(p, i + 1);
    }
}

/// The pieces of a pattern between its `*`s, from position `i` on, as
/// `str::split('*')` gives them (empty pieces included).
pub open spec fn star_parts_from(p: Seq<char>, i: int) -> Seq<Seq<char>>
    decreases p.len() - i,
{
    if i < 0 || i > p.len() {
        Seq::empty()
    } else {
        let s = first_star(p, i);
        proof {
            lemma_first_star(p, i);
        }
        if s >= p.len() {
            seq![p.subrange(i, p.len() as int)]
        } else {
            seq![p.subrange(i, s)] + star_parts_from(p, s + 1)
        }
    }
}

/// The first position from `from` on where `part` occurs in `name`.
pub open spec fn find_from(name: Seq<char>, part: Seq<char>, from: int) -> Option<int>
    decreases name.len() + 1 - from,
{
    if from < 0 || from > name.len() {
        None
    } else if occurs_at(name, part, from) {
        Some(from)
    } else {
        find_from(name, part, from + 1)
    }
}

/// Matching the pieces from `idx` on with the name read from `cursor`:
/// empty pieces are skipped; the first piece must start the name; the
/// last must end it (after the cursor); every other piece is found at its
/// first occurrence after the cursor.
pub open spec fn glob_walk(name: Seq<char>, parts: Seq<Seq<char>>, idx: int, cursor: int) -> bool
    decreases parts.len() - idx,
{
    if idx < 0 || idx >= parts.len() {
        true
    } else if parts[idx].len() == 0 {
        glob_walk(name, parts, idx + 1, cursor)
    } else if idx == 0 {
        is_prefix_of(parts[0], name) && glob_walk(name, parts, 1, parts[0].len() as int)
    } else if idx == parts.len() - 1 {
        name.len() >= cursor + parts[idx].len() && is_suffix_of(parts[idx], name.subrange(cursor, name.len() as int))
    } else {
        match find_from(name, parts[idx], cursor) {
            Some(pos) => glob_walk(name, parts, idx + 1, pos + parts[idx].len()),
            None => false,
        }
    }
}

/// Whether a file name matches a pattern whose only wildcard is `*`: a
/// pattern without `*` must equal the name; otherwise the pieces between
/// the `*`s are matched in order (see [`glob_walk`]).
pub open spec fn glob_matches(name: Seq<char>, pattern: Seq<char>) -> bool {
    if !pattern.contains('*') {
        name == pattern
    } else {
        glob_walk(name, star_parts_from(pattern, 0), 0, 0)
    }
}

fn star_parts(p: &Vec<char>) -> (r: Vec<Vec<char>>)
    ensures
        Seq::new(r@.len(), |k: int| r@[k]@) == star_parts_from(p@, 0),
{
    let mut out: Vec<Vec<char>> = Vec::new();
    let mut i: usize = 0;
    loop
        invariant
            i <= p@.len(),
            Seq::new(out@.len(), |k: int| out@[k]@) + star_parts_from(p@, i as int) == star_parts_from(p@, 0),
        decreases p@.len() - i,
    {
        let mut s: usize = i;
        while s < p.len() && p[s] != '*'
            invariant
                i <= s <= p@.len(),
                first_star(p@, i as int) == first_star(p@, s as int),
            decreases p@.len() - s,
        {
            s = s + 1;
        }
        proof {
            lemma_first_star(p@, i as int);
        }
        let mut piece: Vec<char> = Vec::new();
        let mut k: usize = i;
        while k < s
            invariant
                i <= k <= s <= p@.len(),
                piece@ == p@.subrange(i as int, k as int),
            decreases s - k,
        {
            piece.push(p[k]);
            k = k + 1;
            assert(piece@ =~= p@.subrange(i as int, k as int));
        }
        let ghost before = Seq::new(out@.len(), |q: int| out@[q]@);
        let ghost pv = piece@;
        out.push(piece);
        assert(Seq::new(out@.len(), |q: int| out@[q]@) =~= before.push(pv));
        if s >= p.len() {
            assert(star_parts_from(p@, i as int) == seq![pv]);
            assert(before.push(pv) =~= before + seq![pv]);
            return out;
        }
        assert(star_parts_from(p@, i as int) == seq![pv] + star_parts_from(p@, s + 1));
        assert(before.push(pv) + star_parts_from(p@, s + 1) =~= before + (seq![pv] + star_parts_from(p@, s + 1)));
        i = s + 1;
    }
}

proof fn lemma_find_from(name: Seq<char>, part: Seq<char>, from: int)
    ensures
        find_from(name, part, from) matches Some(p) ==> occurs_at(name, part, p) && from <= p,
    decreases name.len() + 1 - from,
{
    if 0 <= from <= name.len() && !occurs_at(name, part, from) {
        lemma_find_from(name, part, from + 1);
    }
}

fn find_part(name: &Vec<char>, part: &Vec<char>, from: usize) -> (r: Option<usize>)
    requires
        from <= name@.len(),
    ensures
        r matches Some(pos) ==> find_from(name@, part@, from as int) == Some(pos as int),
        r is None ==> find_from(name@, part@, from as int) is None,
{
    let mut k: usize = from;
    loop
        invariant
            from <= k <= name@.len(),
            find_from(name@, part@, from as int) == find_from(name@, part@, k as int),
        decreases name@.len() - k,
    {
        if chars_occur_at(name.as_slice(), part.as_slice(), k) {
            return Some(k);
        }
        if k == name.len() {
            assert(find_from(name@, part@, k + 1) is None);
            return None;
        }
        k = k + 1;
    }
}

/// Whether a file name matches a pattern (see [`glob_matches`]).
pub fn simple_glob(name: &str, pattern: &str) -> (r: bool)
    ensures
        r == glob_matches(name@, pattern@),
{
    let nv = chars_of(name);
    let pv = chars_of(pattern);
    let mut has_star = false;
    let mut q: usize = 0;
    while q < pv.len()
        invariant
            q <= pv@.len(),
            has_star == exists|j: int| 0 <= j < q && pv@[j] == '*',
        decreases pv@.len() - q,
    {
        if pv[q] == '*' {
            has_star = true;
        }
        q = q + 1;
    }
    proof {
        if has_star {
            let j = choose|j: int| 0 <= j < pv@.len() && pv@[j] == '*';
            assert(pattern@.contains('*'));
        } else {
            assert(!pattern@.contains('*'));
        }
    }
    if !has_star {
        return chars_eq(nv.as_slice(), pv.as_slice());
    }
    let parts = star_parts(&pv);
    let ghost ps = Seq::new(parts@.len(), |k: int| parts@[k]@);
    let mut cursor: usize = 0;
    let mut idx: usize = 0;
    while idx < parts.len()
        invariant
            idx <= parts@.len(),
            ps == Seq::new(parts@.len(), |k: int| parts@[k]@),
            ps == star_parts_from(pattern@, 0),
            nv@ == name@,
            pattern@.contains('*'),
            cursor <= nv@.len(),
            glob_walk(nv@, ps, 0, 0) == glob_walk(nv@, ps, idx as int, cursor as int),
        decreases parts@.len() - idx,
    {
        let part = &parts[idx];
        assert(part@ == ps[idx as int]);
        if part.len() == 0 {
            idx = idx + 1;
        } else if idx == 0 {
            let sv = nv.as_slice();
            if part.len() > nv.len() || !chars_occur_at(sv, part.as_slice(), 0) {
                proof {
                    if is_prefix_of(ps[0], nv@) {
                        assert(nv@.subrange(0, ps[0].len() as int) =~= nv@.take(ps[0].len() as int));
                        assert(occurs_at(nv@, ps[0], 0));
                    }
                    assert(!glob_walk(nv@, ps, 0, 0));
                }
                return false;
            }
            proof {
                assert(nv@.subrange(0, ps[0].len() as int) == ps[0]);
                assert(is_prefix_of(ps[0], nv@));
            }
            cursor = part.len();
            idx = 1;
        } else if idx == parts.len() - 1 {
            if nv.len() - cursor < part.len() {
                assert(!glob_walk(nv@, ps, idx as int, cursor as int));
                return false;
            }
            let at = nv.len() - part.len();
            let ok = chars_occur_at(nv.as_slice(), part.as_slice(), at);
            proof {
                let tail = nv@.subrange(cursor as int, nv@.len() as int);
                if ok {
                    assert(tail.subrange(tail.len() - part@.len(), tail.len() as int) =~= nv@.subrange(at as int, nv@.len() as int));
                } else {
                    if is_suffix_of(part@, tail) {
                        assert(tail.subrange(tail.len() - part@.len(), tail.len() as int) =~= nv@.subrange(at as int, nv@.len() as int));
                    }
                }
            }
            return ok;
        } else {
            proof {
                lemma_find_from(nv@, part@, cursor as int);
            }
            match find_part(&nv, part, cursor) {
                Some(pos) => {
                    assert(occurs_at(nv@, part@, pos as int));
                    assert(pos + part@.len() <= nv@.len());
                    assert(nv@.len() == nv.len() && part@.len() == part.len());
                    cursor = pos + part.len();
                    idx = idx + 1;
                },
                None => {
                    return false;
                },
            }
        }
    }
    true
}

/// A lone `*` matches every name, the empty one too.
pub proof fn law_star_matches_everything(name: Seq<char>)
    ensures
        glob_matches(name, seq!['*']),
{
    let p = seq!['*'];
    assert(p.contains('*')) by {
        assert(p[0] == '*');
    }
    lemma_first_star(p, 0);
    lemma_first_star(p, 1);
    assert(first_star(p, 0) == 0);
    assert(star_parts_from(p, 1) == seq![p.subrange(1, 1)]);
    let parts = star_parts_from(p, 0);
    assert(parts == seq![p.subrange(0, 0)] + seq![p.subrange(1, 1)]);
    assert(parts.len() == 2 && parts[0].len() == 0 && parts[1].len() == 0);
    assert(glob_walk(name, parts, 2, 0));
    assert(glob_walk(name, parts, 1, 0));
}

/// A pattern without `*` matches exactly the name equal to it.
pub proof fn law_plain_pattern_is_equality(name: Seq<char>, pattern: Seq<char>)
    requires
        !pattern.contains('*'),
    ensures
        glob_matches(name, pattern) <==> name == pattern,
{
}

// ---------------------------------------------------------------------------
// Items found
// ---------------------------------------------------------------------------

/// One thing a rule found.
pub struct JunkItem {
    pub rule_id: String,
    pub category: JunkCategory,
    pub category_name: String,
    pub rule_name: String,
    pub path: String,
    pub size: u64,
    pub file_count: usize,
    pub is_directory: bool,
    pub risk_level: JunkRiskLevel,
    pub default_selected: bool,
    pub why_safe: Option<String>,
}

/// What a junk scan found.
pub struct JunkScanResult {
    pub items: Vec<JunkItem>,
    pub total_size: u64,
    pub total_count: usize,
    pub scanned_rules: usize,
    pub skipped_rules: Vec<String>,
    pub scan_duration_ms: u64,
}

/// The name shown for a category.
pub open spec fn category_text(c: JunkCategory) -> Seq<char> {
    match c {
        JunkCategory::SystemTemp => "系统临时文件"@,
        JunkCategory::BrowserCache => "浏览器缓存"@,
        JunkCategory::WindowsUpdate => "Windows 更新残留"@,
        JunkCategory::ThumbnailCache => "缩略图缓存"@,
        JunkCategory::RecycleBin => "回收站"@,
        JunkCategory::CrashDump => "崩溃转储"@,
        JunkCategory::AppLogs => "应用日志"@,
        JunkCategory::FontCache => "字体缓存"@,
    }
}

/// The name shown for a category (see [`category_text`]).
pub fn category_label(category: JunkCategory) -> (r: &'static str)
    ensures
        r@ == category_text(category),
{
    match category {
        JunkCategory::SystemTemp => "系统临时文件",
        JunkCategory::BrowserCache => "浏览器缓存",
        JunkCategory::WindowsUpdate => "Windows 更新残留",
        JunkCategory::ThumbnailCache => "缩略图缓存",
        JunkCategory::RecycleBin => "回收站",
        JunkCategory::CrashDump => "崩溃转储",
        JunkCategory::AppLogs => "应用日志",
        JunkCategory::FontCache => "字体缓存",
    }
}

/// Whether a rule is in the chosen categories (all when none are chosen).
pub open spec fn in_categories(r: JunkRule, categories: Option<Seq<JunkCategory>>) -> bool {
    match categories {
        Some(cs) => cs.contains(r.category),
        None => true,
    }
}

/// The positions, among the first `n` rules, of those a scan runs: in the
/// chosen categories and, when the rule needs administrator rights, only
/// when the scan has them.
pub open spec fn applicable_upto(rules: Seq<JunkRule>, categories: Option<Seq<JunkCategory>>, is_admin: bool, n: int) -> Seq<int>
    decreases n,
{
    if n <= 0 {
        Seq::empty()
    } else if in_categories(rules[n - 1], categories) && (!rules[n - 1].requires_admin || is_admin) {
        applicable_upto(rules, categories, is_admin, n - 1).push(n - 1)
    } else {
        applicable_upto(rules, categories, is_admin, n - 1)
    }
}

/// The ids, among the first `n` rules, of those skipped for want of
/// administrator rights.
pub open spec fn admin_skipped_upto(rules: Seq<JunkRule>, categories: Option<Seq<JunkCategory>>, is_admin: bool, n: int) -> Seq<Seq<char>>
    decreases n,
{
    if n <= 0 {
        Seq::empty()
    } else if in_categories(rules[n - 1], categories) && rules[n - 1].requires_admin && !is_admin {
        admin_skipped_upto(rules, categories, is_admin, n - 1).push(rules[n - 1].id@)
    } else {
        admin_skipped_upto(rules, categories, is_admin, n - 1)
    }
}

fn category_chosen(categories: &Option<Vec<JunkCategory>>, c: JunkCategory) -> (r: bool)
    ensures
        r == match categories {
            Some(cs) => cs@.contains(c),
            None => true,
        },
{
    match categories {
        Some(cs) => {
            let mut k: usize = 0;
            while k < cs.len()
                invariant
                    k <= cs@.len(),
                    *categories == Some(*cs),
                    forall|q: int| 0 <= q < k ==> cs@[q] != c,
                decreases cs@.len() - k,
            {
                if cs[k] == c {
                    assert(cs@[k as int] == c);
                    return true;
                }
                k = k + 1;
            }
            false
        },
        None => true,
    }
}

pub open spec fn opt_categories(c: Option<Vec<JunkCategory>>) -> Option<Seq<JunkCategory>> {
    match c {
        Some(v) => Some(v@),
        None => None,
    }
}

/// The positions of the rules a scan runs and the ids of those it skips
/// for want of rights (see [`applicable_upto`]).
pub fn select_rules(rules: &Vec<JunkRule>, categories: &Option<Vec<JunkCategory>>, is_admin: bool) -> (r: (Vec<usize>, Vec<String>))
    ensures
        Seq::new(r.0@.len(), |k: int| r.0@[k] as int) == applicable_upto(rules@, opt_categories(*categories), is_admin, rules@.len() as int),
        Seq::new(r.1@.len(), |k: int| r.1@[k]@) == admin_skipped_upto(rules@, opt_categories(*categories), is_admin, rules@.len() as int),
{
    let ghost cats = opt_categories(*categories);
    let mut applicable: Vec<usize> = Vec::new();
    let mut skipped: Vec<String> = Vec::new();
    let mut i: usize = 0;
    while i < rules.len()
        invariant
            i <= rules@.len(),
            cats == opt_categories(*categories),
            Seq::new(applicable@.len(), |k: int| applicable@[k] as int) == applicable_upto(rules@, cats, is_admin, i as int),
            Seq::new(skipped@.len(), |k: int| skipped@[k]@) == admin_skipped_upto(rules@, cats, is_admin, i as int),
        decreases rules@.len() - i,
    {
        let rule = &rules[i];
        if category_chosen(categories, rule.category) {
            if rule.requires_admin && !is_admin {
                let ghost before = Seq::new(skipped@.len(), |k: int| skipped@[k]@);
                skipped.push(rule.id.clone());
                assert(Seq::new(skipped@.len(), |k: int| skipped@[k]@) =~= before.push(rules@[i as int].id@));
            } else {
                let ghost before = Seq::new(applicable@.len(), |k: int| applicable@[k] as int);
                applicable.push(i);
                assert(Seq::new(applicable@.len(), |k: int| applicable@[k] as int) =~= before.push(i as int));
            }
        }
        i = i + 1;
    }
    (applicable, skipped)
}

// ---------------------------------------------------------------------------
// Items merged by path
// ---------------------------------------------------------------------------

/// The key items are merged by: `/` read as `\`, trailing `\` dropped,
/// ASCII letters lowercased.
pub open spec fn item_key(path: Seq<char>) -> Seq<char> {
    ascii_lower(trim_end_char(replace_char(path, '/', '\\'), '\\'))
}

fn item_key_of(path: &str) -> (r: String)
    ensures
        r@ == item_key(path@),
{
    let replaced = replace_char_str(path, '/', '\\');
    let trimmed = trim_end_char_str(replaced.as_str(), '\\');
    to_ascii_lowercase(trimmed.as_str())
}

pub open spec fn risk_rank(r: JunkRiskLevel) -> int {
    match r {
        JunkRiskLevel::Safe => 0,
        JunkRiskLevel::Caution => 1,
        JunkRiskLevel::Risky => 2,
    }
}

/// A later item replaces an earlier one of the same key when it is
/// riskier; at equal risk, when it is not selected by default while the
/// earlier one is; else when its rule id is longer (in UTF-8 bytes).
pub open spec fn replaces(existing: JunkItem, candidate: JunkItem) -> bool {
    if risk_rank(candidate.risk_level) != risk_rank(existing.risk_level) {
        risk_rank(candidate.risk_level) > risk_rank(existing.risk_level)
    } else if candidate.default_selected != existing.default_selected {
        !candidate.default_selected
    } else {
        utf8_len(candidate.rule_id@) > utf8_len(existing.rule_id@)
    }
}

fn utf8_length(v: &Vec<char>) -> (r: u128)
    ensures
        r == utf8_len(v@),
{
    let mut total: u128 = 0;
    let mut i: usize = 0;
    while i < v.len()
        invariant
            i <= v@.len(),
            total == utf8_len(v@.take(i as int)),
            total <= 4 * i,
        decreases v@.len() - i,
    {
        assert(v@.take(i + 1).drop_last() =~= v@.take(i as int));
        let c = v[i] as u32;
        let w: u128 = if c < 0x80 {
            1
        } else if c < 0x800 {
            2
        } else if c < 0x10000 {
            3
        } else {
            4
        };
        total = total + w;
        i = i + 1;
    }
    assert(v@.take(v@.len() as int) =~= v@);
    total
}

/// Whether a later item replaces an earlier one (see [`replaces`]).
pub fn should_replace_item(existing: &JunkItem, candidate: &JunkItem) -> (r: bool)
    ensures
        r == replaces(*existing, *candidate),
{
    let er: u8 = match existing.risk_level {
        JunkRiskLevel::Safe => 0,
        JunkRiskLevel::Caution => 1,
        JunkRiskLevel::Risky => 2,
    };
    let cr: u8 = match candidate.risk_level {
        JunkRiskLevel::Safe => 0,
        JunkRiskLevel::Caution => 1,
        JunkRiskLevel::Risky => 2,
    };
    if cr != er {
        return cr > er;
    }
    if candidate.default_selected != existing.default_selected {
        return !candidate.default_selected;
    }
    let cl = utf8_length(&chars_of(candidate.rule_id.as_str()));
    let el = utf8_length(&chars_of(existing.rule_id.as_str()));
    cl > el
}

/// The first position of an item with the key.
pub open spec fn key_pos(ds: Seq<JunkItem>, key: Seq<char>, i: int) -> Option<int>
    decreases ds.len() - i,
{
    if i < 0 || i >= ds.len() {
        None
    } else if item_key(ds[i].path@) == key {
        Some(i)
    } else {
        key_pos(ds, key, i + 1)
    }
}

/// Items merged by key, in order of first appearance: a later item with a
/// key already present replaces the kept one when [`replaces`] says so.
pub open spec fn deduped(items: Seq<JunkItem>) -> Seq<JunkItem>
    decreases items.len(),
{
    if items.len() == 0 {
        Seq::empty()
    } else {
        let prev = deduped(items.drop_last());
        let it = items.last();
        match key_pos(prev, item_key(it.path@), 0) {
            Some(i) => if replaces(prev[i], it) { prev.update(i, it) } else { prev },
            None => prev.push(it),
        }
    }
}

proof fn lemma_key_pos(ds: Seq<JunkItem>, key: Seq<char>, i: int)
    requires
        0 <= i,
    ensures
        key_pos(ds, key, i) matches Some(p) ==> i <= p < ds.len() && item_key(ds[p].path@) == key,
        key_pos(ds, key, i) is None ==> forall|q: int| i <= q < ds.len() ==> item_key(ds[q].path@) != key,
    decreases ds.len() - i,
{
    if i < ds.len() && item_key(ds[i].path@) != key {
        lemma_key_pos(ds, key, i + 1);
    }
}

/// Items merged by path (see [`deduped`]).
pub fn dedupe_items_by_path(items: Vec<JunkItem>) -> (r: Vec<JunkItem>)
    ensures
        r@ == deduped(items@),
{
    let ghost all = items@;
    let mut out: Vec<JunkItem> = Vec::new();
    let mut keys: Vec<String> = Vec::new();
    let mut rest = items;
    let mut done: usize = 0;
    let n = rest.len();
    while rest.len() > 0
        invariant
            done + rest@.len() == n,
            n == all.len(),
            forall|q: int| 0 <= q < rest@.len() ==> #[trigger] rest@[q] == all[done + q],
            out@ == deduped(all.take(done as int)),
            keys@.len() == out@.len(),
            forall|q: int| 0 <= q < keys@.len() ==> (#[trigger] keys@[q])@ == item_key(out@[q].path@),
        decreases rest@.len(),
    {
        let ghost r0 = rest@;
        let item = rest.remove(0);
        assert(item == all[done as int]);
        assert(forall|q: int| 0 <= q < rest@.len() ==> rest@[q] == r0[q + 1]);
        proof {
            assert(all.take(done + 1).drop_last() =~= all.take(done as int));
            assert(all.take(done + 1).last() == item);
        }
        let key = item_key_of(item.path.as_str());
        let mut idx: usize = 0;
        let mut found = false;
        while idx < keys.len() && !found
            invariant
                idx <= keys@.len(),
                keys@.len() == out@.len(),
                forall|q: int| 0 <= q < keys@.len() ==> (#[trigger] keys@[q])@ == item_key(out@[q].path@),
                !found ==> key_pos(out@, key@, 0) == key_pos(out@, key@, idx as int),
                found ==> idx < keys@.len() && key_pos(out@, key@, 0) == Some(idx as int),
            decreases keys@.len() - idx + if found { 0int } else { 1int },
        {
            if str_eq(keys[idx].as_str(), key.as_str()) {
                found = true;
            } else {
                idx = idx + 1;
            }
        }
        let ghost prev = out@;
        if found {
            proof {
                lemma_key_pos(out@, key@, 0);
            }
            if should_replace_item(&out[idx], &item) {
                let ghost iv = item;
                out.set(idx, item);
                proof {
                    assert(out@ == prev.update(idx as int, iv));
                    assert forall|q: int| 0 <= q < keys@.len() implies (#[trigger] keys@[q])@ == item_key(out@[q].path@) by {
                        if q != idx {
                            assert(out@[q] == prev[q]);
                        }
                    }
                }
            }
        } else {
            proof {
                lemma_key_pos(out@, key@, idx as int);
            }
            out.push(item);
            keys.push(key);
        }
        done = done + 1;
    }
    assert(all.take(n as int) =~= all);
    out
}

/// The total size of items, saturating.
pub open spec fn items_size(items: Seq<JunkItem>) -> int
    decreases items.len(),
{
    if items.len() == 0 {
        0
    } else {
        sat_u64(items_size(items.drop_last()) + items.last().size)
    }
}

/// What a junk scan found: the items merged by path, their total size and
/// count, how many rules ran and which were skipped.
pub fn finish_junk_scan(
    items: Vec<JunkItem>,
    scanned_rules: usize,
    skipped_rules: Vec<String>,
    scan_duration_ms: u64,
) -> (r: JunkScanResult)
    ensures
        r.items@ == deduped(items@),
        r.total_size == items_size(r.items@),
        r.total_count == r.items@.len(),
        r.scanned_rules == scanned_rules,
        r.skipped_rules@ == skipped_rules@,
        r.scan_duration_ms == scan_duration_ms,
{
    let merged = dedupe_items_by_path(items);
    let mut total: u64 = 0;
    let mut k: usize = 0;
    while k < merged.len()
        invariant
            k <= merged@.len(),
            total == items_size(merged@.take(k as int)),
        decreases merged@.len() - k,
    {
        assert(merged@.take(k + 1).drop_last() =~= merged@.take(k as int));
        total = total.saturating_add(merged[k].size);
        k = k + 1;
    }
    assert(merged@.take(merged@.len() as int) =~= merged@);
    let total_count = merged.len();
    JunkScanResult { items: merged, total_size: total, total_count, scanned_rules, skipped_rules, scan_duration_ms }
}

/// After merging, no two items share a path key.
pub proof fn law_deduped_keys_distinct(items: Seq<JunkItem>)
    ensures
        forall|i: int, j: int|
            0 <= i < j < deduped(items).len() ==> item_key((#[trigger] deduped(items)[i]).path@) != item_key(
                (#[trigger] deduped(items)[j]).path@,
            ),
    decreases items.len(),
{
    if items.len() > 0 {
        law_deduped_keys_distinct(items.drop_last());
        let prev = deduped(items.drop_last());
        let it = items.last();
        let key = item_key(it.path@);
        lemma_key_pos(prev, key, 0);
        let cur = deduped(items);
        match key_pos(prev, key, 0) {
            Some(p) => {
                assert forall|i: int, j: int| 0 <= i < j < cur.len() implies item_key((#[trigger] cur[i]).path@)
                    != item_key((#[trigger] cur[j]).path@) by {
                    assert(item_key(cur[i].path@) == item_key(prev[i].path@));
                    assert(item_key(cur[j].path@) == item_key(prev[j].path@));
                }
            },
            None => {
                assert forall|i: int, j: int| 0 <= i < j < cur.len() implies item_key((#[trigger] cur[i]).path@)
                    != item_key((#[trigger] cur[j]).path@) by {
                    if j == prev.len() {
                        assert(cur[j] == it);
                        assert(cur[i] == prev[i]);
                    } else {
                        assert(cur[i] == prev[i] && cur[j] == prev[j]);
                    }
                }
            },
        }
    }
}

// ---------------------------------------------------------------------------
// Walking a rule's directories
// ---------------------------------------------------------------------------

/// Some pattern of the list matches the name.
pub open spec fn matches_some(name: Seq<char>, patterns: Seq<Seq<char>>) -> bool {
    exists|k: int| 0 <= k < patterns.len() && glob_matches(name, #[trigger] patterns[k])
}

/// Whether a file name matches one of a rule's patterns.
pub fn matches_any_pattern(name: &str, patterns: &Vec<String>) -> (r: bool)
    ensures
        r == matches_some(name@, crate::rules::texts(patterns@)),
{
    let ghost ps = crate::rules::texts(patterns@);
    let mut k: usize = 0;
    while k < patterns.len()
        invariant
            k <= patterns@.len(),
            ps == crate::rules::texts(patterns@),
            forall|q: int| 0 <= q < k ==> !glob_matches(name@, #[trigger] ps[q]),
        decreases patterns@.len() - k,
    {
        if simple_glob(name, patterns[k].as_str()) {
            assert(glob_matches(name@, ps[k as int]));
            return true;
        }
        k = k + 1;
    }
    false
}

/// What a rule's walk does with an entry of a directory.
#[derive(Debug, Clone, Copy, PartialEq, Eq, Structural)]
pub enum WalkStep {
    /// Walk into the directory, one level deeper.
    Descend,
    /// Report the file as junk.
    Report,
    /// Leave the entry alone.
    Ignore,
}

/// The step of a pattern rule's walk for an entry found `depth` levels
/// below the rule's base directory: a real directory is walked into while
/// the rule's depth cap allows; a file is reported when one of the rule's
/// patterns matches its name; a link to a directory is left alone.
pub open spec fn walk_step_of(max_depth: Option<u32>, patterns: Seq<Seq<char>>, depth: u32, is_dir: bool, is_symlink: bool, name: Seq<char>) -> WalkStep {
    if is_dir && !is_symlink {
        if match max_depth {
            Some(cap) => depth < cap,
            None => true,
        } {
            WalkStep::Descend
        } else {
            WalkStep::Ignore
        }
    } else if !is_dir && matches_some(name, patterns) {
        WalkStep::Report
    } else {
        WalkStep::Ignore
    }
}

/// The step of a pattern rule's walk for one entry (see [`walk_step_of`]).
pub fn walk_step(rule: &JunkRule, depth: u32, is_dir: bool, is_symlink: bool, name: &str) -> (r: WalkStep)
    ensures
        r == walk_step_of(rule.max_depth, crate::rules::texts(rule.patterns@), depth, is_dir, is_symlink, name@),
{
    if is_dir && !is_symlink {
        let can_descend = match rule.max_depth {
            Some(cap) => depth < cap,
            None => true,
        };
        if can_descend {
            WalkStep::Descend
        } else {
            WalkStep::Ignore
        }
    } else if !is_dir && matches_any_pattern(name, &rule.patterns) {
        WalkStep::Report
    } else {
        WalkStep::Ignore
    }
}

/// The item a rule reports for a path: the rule's id, category, name, risk
/// and selection, with the path's size, file count and kind.
pub fn rule_item(rule: &JunkRule, path: String, size: u64, file_count: usize, is_directory: bool) -> (r: JunkItem)
    ensures
        r.rule_id@ == rule.id@,
        r.category == rule.category,
        r.category_name@ == category_text(rule.category),
        r.rule_name@ == rule.name@,
        r.path == path,
        r.size == size,
        r.file_count == file_count,
        r.is_directory == is_directory,
        r.risk_level == rule.risk_level,
        r.default_selected == rule.default_selected,
        r.why_safe == rule.why_safe,
{
    JunkItem {
        rule_id: rule.id.clone(),
        category: rule.category,
        category_name: owned(category_label(rule.category)),
        rule_name: rule.name.clone(),
        path,
        size,
        file_count,
        is_directory,
        risk_level: rule.risk_level,
        default_selected: rule.default_selected,
        why_safe: crate::file_info::copy_opt_string(&rule.why_safe),
    }
}

// ---------------------------------------------------------------------------
// Paths with a wildcard
// ---------------------------------------------------------------------------

/// How a rule path with a `*` is resolved: list `list_dir`, keep the
/// entries whose name matches `segment`, and form `prefix` + `\` + name +
/// `suffix` for each (resolving it again when it still holds a `*`).
pub struct GlobPlan {
    pub list_dir: String,
    pub prefix: String,
    pub segment: String,
    pub suffix: String,
}

/// How a rule path is resolved: as it stands (no `*`), by listing a
/// directory, or not at all (a `*` in its first component).
pub enum PathGlob {
    Literal(String),
    Expand(GlobPlan),
    Unresolvable,
}

/// The first position of `c` in `s` at or after `i`, else the length.
pub open spec fn first_from(s: Seq<char>, c: char, i: int) -> int
    decreases s.len() - i,
{
    if i < 0 || i >= s.len() {
        s.len() as int
    } else if s[i] == c {
        i
    } else {
        first_from(s, c, i + 1)
    }
}

/// The last position of `\` before `end`, else zero.
pub open spec fn last_sep_before(s: Seq<char>, end: int) -> int
    decreases end,
{
    if end <= 0 {
        0
    } else if s[end - 1] == '\\' {
        end - 1
    } else {
        last_sep_before(s, end - 1)
    }
}

proof fn lemma_first_from(s: Seq<char>, c: char, i: int)
    requires
        0 <= i,
    ensures
        i <= first_from(s, c, i) <= s.len() || (i > s.len() && first_from(s, c, i) == s.len()),
        first_from(s, c, i) < s.len() ==> s[first_from(s, c, i)] == c,
        forall|k: int| i <= k < first_from(s, c, i) ==> s[k] != c,
    decreases s.len() - i,
{
    if i < s.len() && s[i] != c {
        lemma_first_from(s, c, i + 1);
    }
}

proof fn lemma_last_sep_before(s: Seq<char>, end: int)
    requires
        0 <= end <= s.len(),
    ensures
        0 <= last_sep_before(s, end) <= end,
    decreases end,
{
    if end > 0 && s[end - 1] != '\\' {
        lemma_last_sep_before(s, end - 1);
    }
}

/// How a rule path is resolved (see [`PathGlob`]): `/` read as `\`; the
/// wildcard segment runs from after the last separator before the first
/// `*` to the next separator; what precedes it is the directory listed (a
/// drive gets its root separator), what follows is kept as the suffix.
pub open spec fn path_glob_parts(raw: Seq<char>) -> Option<(Seq<char>, Seq<char>, Seq<char>, Seq<char>)> {
    let n = crate::text::replace_char(raw, '/', '\\');
    let star = first_from(n, '*', 0);
    let prefix_end = last_sep_before(n, star);
    let suffix_start = first_from(n, '\\', star);
    let prefix = n.take(prefix_end);
    let glob_start = if prefix_end < n.len() && n[prefix_end] == '\\' { prefix_end + 1 } else { prefix_end };
    if prefix.len() == 0 {
        None
    } else {
        let list_dir = if prefix.last() == ':' { prefix.push('\\') } else { prefix };
        Some((list_dir, prefix, n.subrange(glob_start, suffix_start), n.skip(suffix_start)))
    }
}

/// Splits a rule path for resolution (see [`path_glob_parts`]).
pub fn split_path_glob(raw: &str) -> (r: PathGlob)
    ensures
        !raw@.contains('*') ==> (r matches PathGlob::Literal(p) && p@ == crate::text::replace_char(raw@, '/', '\\')),
        raw@.contains('*') ==> match path_glob_parts(raw@) {
            None => r is Unresolvable,
            Some(parts) => r matches PathGlob::Expand(plan) && (plan.list_dir@, plan.prefix@, plan.segment@, plan.suffix@) == parts,
        },
{
    let normalized = crate::text::replace_char_str(raw, '/', '\\');
    let v = chars_of(normalized.as_str());
    let ghost n = v@;
    assert(n == crate::text::replace_char(raw@, '/', '\\'));
    assert(raw@.contains('*') == n.contains('*')) by {
        if raw@.contains('*') {
            let k = choose|k: int| 0 <= k < raw@.len() && raw@[k] == '*';
            assert(n[k] == '*');
        }
        if n.contains('*') {
            let k = choose|k: int| 0 <= k < n.len() && n[k] == '*';
            assert(raw@[k] == '*');
        }
    }
    let mut star: usize = 0;
    while star < v.len() && v[star] != '*'
        invariant
            star <= v@.len(),
            v@ == n,
            first_from(n, '*', 0) == first_from(n, '*', star as int),
        decreases v@.len() - star,
    {
        star = star + 1;
    }
    proof {
        lemma_first_from(n, '*', 0);
    }
    if star == v.len() {
        assert(!n.contains('*'));
        return PathGlob::Literal(normalized);
    }
    assert(n.contains('*'));
    let mut prefix_end: usize = star;
    while prefix_end > 0 && v[prefix_end - 1] != '\\'
        invariant
            prefix_end <= star,
            star < v@.len(),
            v@ == n,
            last_sep_before(n, star as int) == last_sep_before(n, prefix_end as int),
        decreases prefix_end,
    {
        prefix_end = prefix_end - 1;
    }
    let prefix_end: usize = if prefix_end > 0 { prefix_end - 1 } else { 0 };
    assert(prefix_end == last_sep_before(n, star as int));
    let mut suffix_start: usize = star;
    while suffix_start < v.len() && v[suffix_start] != '\\'
        invariant
            star <= suffix_start <= v@.len(),
            v@ == n,
            first_from(n, '\\', star as int) == first_from(n, '\\', suffix_start as int),
        decreases v@.len() - suffix_start,
    {
        suffix_start = suffix_start + 1;
    }
    if prefix_end == 0 {
        return PathGlob::Unresolvable;
    }
    let prefix = string_from_chars(slice_of(&v, 0, prefix_end).as_slice());
    let glob_start: usize = if prefix_end < v.len() && v[prefix_end] == '\\' { prefix_end + 1 } else { prefix_end };
    proof {
        lemma_last_sep_before(n, star as int);
    }
    let segment = string_from_chars(slice_of(&v, glob_start, suffix_start).as_slice());
    let suffix = string_from_chars(slice_of(&v, suffix_start, v.len()).as_slice());
    let list_dir = if v[prefix_end - 1] == ':' {
        let mut d = prefix.clone();
        crate::text::push_char(&mut d, '\\');
        d
    } else {
        prefix.clone()
    };
    assert(n.take(prefix_end as int).last() == v@[prefix_end - 1]);
    assert(n.skip(suffix_start as int) =~= n.subrange(suffix_start as int, n.len() as int));
    PathGlob::Expand(GlobPlan { list_dir, prefix, segment, suffix })
}

/// The characters of `v` from `a` up to `b`.
fn slice_of(v: &Vec<char>, a: usize, b: usize) -> (r: Vec<char>)
    requires
        a <= b <= v@.len(),
    ensures
        r@ == v@.subrange(a as int, b as int),
{
    let mut out: Vec<char> = Vec::new();
    let mut k: usize = a;
    while k < b
        invariant
            a <= k <= b <= v@.len(),
            out@ == v@.subrange(a as int, k as int),
        decreases b - k,
    {
        out.push(v[k]);
        k = k + 1;
        assert(out@ =~= v@.subrange(a as int, k as int));
    }
    out
}

/// The path an entry of a listed directory stands for: the plan's prefix,
/// `\`, the entry's name, then the plan's suffix.
pub fn glob_candidate(plan: &GlobPlan, name: &str) -> (r: String)
    ensures
        r@ == plan.prefix@ + seq!['\\'] + name@ + plan.suffix@,
{
    let mut out = plan.prefix.clone();
    crate::text::push_char(&mut out, '\\');
    crate::text::push_str(&mut out, name);
    crate::text::push_str(&mut out, plan.suffix.as_str());
    assert(out@ =~= plan.prefix@ + seq!['\\'] + name@ + plan.suffix@);
    out
}

} // verus!
