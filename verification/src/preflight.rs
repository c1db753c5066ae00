//! What a cleaning run would do before it runs: which items would be
//! removed and which skipped and why, how much space that frees and how
//! long it takes, and which rules are held back because their paths cover
//! the paths of finer rules.
use vstd::prelude::*;
use crate::rules::{texts, JunkRiskLevel, JunkRule};
use crate::safety::{to_uppercase, unicode_upper};
use crate::file_info::copy_opt_string;
use crate::tree::sat_u64;
use crate::text::{decimal, owned, push_decimal, push_str, chars_of, is_prefix_of, replace_char, replace_char_str, starts_with, str_eq, trim_end_char, trim_end_char_str};

verus! {

/// The civil date (year, month, day) of a count of days since 1970-01-01,
/// by the era arithmetic of the proleptic Gregorian calendar (eras of
/// 146097 days starting on March 1st).
pub open spec fn civil(z: int) -> (int, int, int) {
    let zz = z + 719468;
    let era = zz / 146097;
    let doe = zz - era * 146097;
    let yoe = (doe - doe / 1460 + doe / 36524 - doe / 146096) / 365;
    let y = yoe + era * 400;
    let doy = doe - (365 * yoe + yoe / 4 - yoe / 100);
    let mp = (5 * doy + 2) / 153;
    let d = doy - (153 * mp + 2) / 5 + 1;
    let m = if mp < 10 { mp + 3 } else { mp - 9 };
    (if m <= 2 { y + 1 } else { y }, m, d)
}

proof fn lemma_civil_bounds(doe: int)
    requires
        0 <= doe < 146097,
    ensures
        ({
            let yoe = (doe - doe / 1460 + doe / 36524 - doe / 146096) / 365;
            let doy = doe - (365 * yoe + yoe / 4 - yoe / 100);
            &&& 0 <= yoe <= 399
            &&& 0 <= doy <= 365
        }),
{
    let a = doe / 1460;
    let b = doe / 36524;
    let c = doe / 146096;
    assert(0 <= a && a * 1460 <= doe && doe < (a + 1) * 1460) by (nonlinear_arith)
        requires a == doe / 1460, 0 <= doe;
    assert(0 <= b && b * 36524 <= doe && doe < (b + 1) * 36524) by (nonlinear_arith)
        requires b == doe / 36524, 0 <= doe;
    assert(0 <= c && c * 146096 <= doe && doe < (c + 1) * 146096) by (nonlinear_arith)
        requires c == doe / 146096, 0 <= doe;
    let t = doe - a + b - c;
    let yoe = t / 365;
    assert(0 <= yoe && yoe * 365 <= t && t < (yoe + 1) * 365) by (nonlinear_arith)
        requires yoe == t / 365, 0 <= t;
    let e = yoe / 4;
    let f = yoe / 100;
    assert(0 <= e && e * 4 <= yoe && yoe < (e + 1) * 4) by (nonlinear_arith)
        requires e == yoe / 4, 0 <= yoe;
    assert(0 <= f && f * 100 <= yoe && yoe < (f + 1) * 100) by (nonlinear_arith)
        requires f == yoe / 100, 0 <= yoe;
}


/// The civil date of a count of days since 1970-01-01 (see [`civil`]).
pub fn civil_from_days(z: u64) -> (r: (i32, u32, u32))
    requires
        z < 0x80_0000_0000,
    ensures
        (r.0 as int, r.1 as int, r.2 as int) == civil(z as int),
        1 <= r.1 <= 12,
        1 <= r.2 <= 31,
{
    let zz = z + 719468;
    let era = zz / 146097;
    let doe = zz - era * 146097;
    proof {
        assert(0 <= doe < 146097) by (nonlinear_arith)
            requires era == zz / 146097, doe == zz - era * 146097, zz >= 0;
        lemma_civil_bounds(doe as int);
    }
    let yoe = (doe - doe / 1460 + doe / 36524 - doe / 146096) / 365;
    let y = yoe + era * 400;
    let doy = doe - (365 * yoe + yoe / 4 - yoe / 100);
    let mp = (5 * doy + 2) / 153;
    proof {
        assert(0 <= mp <= 11 && 153 * mp <= 5 * doy + 2 && 5 * doy + 2 < 153 * (mp + 1)) by (nonlinear_arith)
            requires mp == (5 * doy + 2) / 153, 0 <= doy <= 365;
        let q = (153 * mp + 2) / 5;
        assert(5 * q <= 153 * mp + 2 && 153 * mp + 2 < 5 * (q + 1)) by (nonlinear_arith)
            requires q == (153 * mp + 2) / 5, 0 <= mp;
        assert(era <= 0x80_0000_0000);
    }
    let d = doy - (153 * mp + 2) / 5 + 1;
    let m = if mp < 10 { mp + 3 } else { mp - 9 };
    let year = if m <= 2 { y + 1 } else { y };
    (year as i32, m as u32, d as u32)
}

/// `n` in decimal, left-padded with zeros to at least `w` digits.
pub open spec fn padded(n: nat, w: nat) -> Seq<char> {
    let digits = crate::text::decimal(n);
    if digits.len() >= w {
        digits
    } else {
        Seq::new((w - digits.len()) as nat, |i: int| '0') + digits
    }
}

fn push_padded(s: &mut String, n: u64, w: usize)
    ensures
        final(s)@ == old(s)@ + padded(n as nat, w as nat),
{
    let digits = crate::text::decimal_string(n);
    let dv = crate::text::chars_of(digits.as_str());
    let ghost start = s@;
    let mut k: usize = dv.len();
    let mut zeros: usize = 0;
    while k < w
        invariant
            dv.len() <= k <= if w > dv.len() { w } else { dv.len() },
            zeros == k - dv.len(),
            s@ == start + Seq::new(zeros as nat, |i: int| '0'),
        decreases w - k,
    {
        crate::text::push_char(s, '0');
        assert(s@ =~= start + Seq::new((zeros + 1) as nat, |i: int| '0'));
        k = k + 1;
        zeros = zeros + 1;
    }
    crate::text::push_str(s, digits.as_str());
    if dv.len() >= w {
        assert(s@ =~= start + padded(n as nat, w as nat));
    } else {
        assert(s@ =~= start + padded(n as nat, w as nat));
    }
}

/// Seconds since the epoch below which times are shown (about a billion
/// years).
pub const FORMATTED_SECS_LIMIT: u64 = 0x80_0000_0000_0000;

/// A time as `YYYY-MM-DD HH:MM:SS` (UTC): the civil date of its day, then
/// hours, minutes and seconds of the day, each zero-padded.
pub open spec fn timestamp_text(secs: nat) -> Seq<char> {
    let days = secs / 86400;
    let day_secs = secs % 86400;
    let c = civil(days as int);
    padded(c.0 as nat, 4) + seq!['-'] + padded(c.1 as nat, 2) + seq!['-'] + padded(c.2 as nat, 2) + seq![' ']
        + padded(day_secs / 3600, 2) + seq![':'] + padded((day_secs % 3600) / 60, 2) + seq![':'] + padded(
        day_secs % 60,
        2,
    )
}

/// A time given as seconds since the epoch (see [`timestamp_text`]).
pub fn format_unix_seconds_local(unix_secs: u64) -> (r: String)
    requires
        unix_secs < FORMATTED_SECS_LIMIT,
    ensures
        r@ == timestamp_text(unix_secs as nat),
{
    let days = unix_secs / 86400;
    let day_secs = unix_secs % 86400;
    proof {
        assert(days < 0x80_0000_0000) by (nonlinear_arith)
            requires days == unix_secs / 86400, unix_secs < 0x80_0000_0000_0000;
    }
    let (y, m, d) = civil_from_days(days);
    proof {
        let c = civil(days as int);
        assert(c.0 >= 0) by {
            let zz = days + 719468;
            assert(zz / 146097 >= 0) by (nonlinear_arith)
                requires zz >= 0;
        }
    }
    let hh = day_secs / 3600;
    let mm = (day_secs % 3600) / 60;
    let ss = day_secs % 60;
    let mut s = String::new();
    let ghost s0 = s@;
    push_padded(&mut s, y as u64, 4);
    crate::text::push_char(&mut s, '-');
    push_padded(&mut s, m as u64, 2);
    crate::text::push_char(&mut s, '-');
    push_padded(&mut s, d as u64, 2);
    crate::text::push_char(&mut s, ' ');
    push_padded(&mut s, hh, 2);
    crate::text::push_char(&mut s, ':');
    push_padded(&mut s, mm, 2);
    crate::text::push_char(&mut s, ':');
    push_padded(&mut s, ss, 2);
    assert(s0 =~= Seq::<char>::empty());
    assert(s@ =~= timestamp_text(unix_secs as nat));
    s
}


// ---------------------------------------------------------------------------
// Paths of rules that cover each other
// ---------------------------------------------------------------------------

/// A rule path as paths are compared: `/` read as `\`, trailing `\`
/// dropped, uppercased.
pub open spec fn compare_form(raw: Seq<char>) -> Seq<char> {
    unicode_upper(trim_end_char(replace_char(raw, '/', '\\'), '\\'))
}

/// A rule path as paths are compared (see [`compare_form`]).
pub fn normalize_for_compare(raw: &str) -> (r: String)
    ensures
        r@ == compare_form(raw@),
        crate::text::all_ascii(raw@) ==> r@ == crate::text::ascii_upper(
            trim_end_char(replace_char(raw@, '/', '\\'), '\\'),
        ),
{
    let replaced = replace_char_str(raw, '/', '\\');
    let trimmed = trim_end_char_str(replaced.as_str(), '\\');
    proof {
        if crate::text::all_ascii(raw@) {
            assert(crate::text::all_ascii(replaced@));
            lemma_trim_end_keeps_ascii(replaced@, '\\');
        }
    }
    to_uppercase(trimmed.as_str())
}

proof fn lemma_trim_end_keeps_ascii(s: Seq<char>, c: char)
    requires
        crate::text::all_ascii(s),
    ensures
        crate::text::all_ascii(trim_end_char(s, c)),
    decreases s.len(),
{
    if s.len() > 0 && s.last() == c {
        assert(crate::text::all_ascii(s.drop_last())) by {
            assert forall|i: int| 0 <= i < s.drop_last().len() implies (#[trigger] s.drop_last()[i]) as u32 <= 0x7f by {
                assert(s.drop_last()[i] == s[i]);
            }
        }
        lemma_trim_end_keeps_ascii(s.drop_last(), c);
    }
}

/// `parent` is a strict ancestor of `child`: both non-empty, `child`
/// starts with `parent` and continues with `\`.
pub open spec fn strict_ancestor(parent: Seq<char>, child: Seq<char>) -> bool {
    &&& parent.len() > 0
    &&& child.len() > parent.len()
    &&& is_prefix_of(parent, child)
    &&& child[parent.len() as int] == '\\'
}

/// Whether `parent` is a strict ancestor of `child` (see
/// [`strict_ancestor`]).
pub fn path_is_strict_ancestor(parent: &str, child: &str) -> (r: bool)
    ensures
        r == strict_ancestor(parent@, child@),
{
    let pv = chars_of(parent);
    let cv = chars_of(child);
    if pv.len() == 0 || cv.len() == 0 {
        return false;
    }
    if cv.len() <= pv.len() {
        return false;
    }
    if !starts_with(child, parent) {
        return false;
    }
    cv[pv.len()] == '\\'
}

/// The compared forms of a rule's paths, without empty ones, in order.
pub open spec fn compare_paths(paths: Seq<Seq<char>>) -> Seq<Seq<char>>
    decreases paths.len(),
{
    if paths.len() == 0 {
        Seq::empty()
    } else if compare_form(paths.last()).len() > 0 {
        compare_paths(paths.drop_last()).push(compare_form(paths.last()))
    } else {
        compare_paths(paths.drop_last())
    }
}

/// A path of rule `outer` strictly covers a path of rule `inner`, both
/// rules being safe.
pub open spec fn covers(outer: JunkRule, inner: JunkRule) -> bool {
    let op = compare_paths(texts(outer.paths@));
    let ip = compare_paths(texts(inner.paths@));
    &&& outer.risk_level == JunkRiskLevel::Safe
    &&& inner.risk_level == JunkRiskLevel::Safe
    &&& exists|a: int, b: int| 0 <= a < op.len() && 0 <= b < ip.len() && #[trigger] strict_ancestor(op[a], ip[b])
}

/// A rule id is held back: some safe rule with that id has a path that
/// strictly covers a path of a safe rule with another id.
pub open spec fn held_back(rules: Seq<JunkRule>, id: Seq<char>) -> bool {
    exists|i: int, j: int|
        0 <= i < rules.len() && 0 <= j < rules.len() && rules[i].id@ == id && rules[j].id@ != id && #[trigger] covers(
            rules[i],
            rules[j],
        )
}

fn compare_paths_of(rule: &JunkRule) -> (r: Vec<String>)
    ensures
        texts(r@) == compare_paths(texts(rule.paths@)),
{
    let mut out: Vec<String> = Vec::new();
    let mut k: usize = 0;
    while k < rule.paths.len()
        invariant
            k <= rule.paths@.len(),
            texts(out@) == compare_paths(texts(rule.paths@).take(k as int)),
        decreases rule.paths@.len() - k,
    {
        let n = normalize_for_compare(rule.paths[k].as_str());
        proof {
            let t = texts(rule.paths@).take(k + 1);
            assert(t.drop_last() =~= texts(rule.paths@).take(k as int));
            assert(t.last() == rule.paths@[k as int]@);
        }
        if chars_of(n.as_str()).len() > 0 {
            let ghost o = out@;
            let ghost nv = n@;
            out.push(n);
            assert(texts(out@) =~= texts(o).push(nv));
        }
        k = k + 1;
    }
    assert(texts(rule.paths@).take(rule.paths@.len() as int) =~= texts(rule.paths@));
    out
}

fn any_covers(op: &Vec<String>, ip: &Vec<String>) -> (r: bool)
    ensures
        r == exists|a: int, b: int| 0 <= a < op@.len() && 0 <= b < ip@.len() && #[trigger] strict_ancestor(
            texts(op@)[a],
            texts(ip@)[b],
        ),
{
    let mut a: usize = 0;
    while a < op.len()
        invariant
            a <= op@.len(),
            forall|x: int, y: int| 0 <= x < a && 0 <= y < ip@.len() ==> !#[trigger] strict_ancestor(texts(op@)[x], texts(ip@)[y]),
        decreases op@.len() - a,
    {
        let mut b: usize = 0;
        while b < ip.len()
            invariant
                a < op@.len(),
                b <= ip@.len(),
                forall|x: int, y: int| 0 <= x < a && 0 <= y < ip@.len() ==> !#[trigger] strict_ancestor(texts(op@)[x], texts(ip@)[y]),
                forall|y: int| 0 <= y < b ==> !#[trigger] strict_ancestor(texts(op@)[a as int], texts(ip@)[y]),
            decreases ip@.len() - b,
        {
            if path_is_strict_ancestor(op[a].as_str(), ip[b].as_str()) {
                assert(strict_ancestor(texts(op@)[a as int], texts(ip@)[b as int]));
                return true;
            }
            b = b + 1;
        }
        a = a + 1;
    }
    false
}

/// The ids of the rules held back (see [`held_back`]).
pub fn build_parent_child_lockset(rules: &Vec<JunkRule>) -> (r: Vec<String>)
    ensures
        forall|id: Seq<char>| texts(r@).contains(id) <==> held_back(rules@, id),
{
    let mut paths: Vec<Vec<String>> = Vec::new();
    let mut k: usize = 0;
    while k < rules.len()
        invariant
            k <= rules@.len(),
            paths@.len() == k,
            forall|q: int| 0 <= q < k ==> texts((#[trigger] paths@[q])@) == compare_paths(texts(rules@[q].paths@)),
        decreases rules@.len() - k,
    {
        paths.push(compare_paths_of(&rules[k]));
        k = k + 1;
    }
    let mut blocked: Vec<String> = Vec::new();
    let mut i: usize = 0;
    while i < rules.len()
        invariant
            i <= rules@.len(),
            paths@.len() == rules@.len(),
            forall|q: int| 0 <= q < rules@.len() ==> texts((#[trigger] paths@[q])@) == compare_paths(texts(rules@[q].paths@)),
            forall|id: Seq<char>| texts(blocked@).contains(id) ==> held_back(rules@, id),
            forall|x: int, y: int|
                0 <= x < i && 0 <= y < rules@.len() && rules@[y].id@ != rules@[x].id@ && #[trigger] covers(rules@[x], rules@[y])
                    ==> texts(blocked@).contains(rules@[x].id@),
        decreases rules@.len() - i,
    {
        let outer = &rules[i];
        let ghost b0 = texts(blocked@);
        let mut found = false;
        proof {
            assert(texts(paths@[i as int]@) == compare_paths(texts(rules@[i as int].paths@)));
        }
        if outer.risk_level == JunkRiskLevel::Safe && paths[i].len() > 0 {
            let mut j: usize = 0;
            let mut hit = false;
            while j < rules.len() && !hit
                invariant
                    i < rules@.len(),
                    j <= rules@.len(),
                    paths@.len() == rules@.len(),
                    *outer == rules@[i as int],
                    outer.risk_level == JunkRiskLevel::Safe,
                    forall|q: int| 0 <= q < rules@.len() ==> texts((#[trigger] paths@[q])@) == compare_paths(texts(rules@[q].paths@)),
                    hit ==> exists|y: int| 0 <= y < rules@.len() && rules@[y].id@ != outer.id@ && #[trigger] covers(*outer, rules@[y]),
                    !hit ==> forall|y: int| 0 <= y < j && rules@[y].id@ != outer.id@ ==> !#[trigger] covers(*outer, rules@[y]),
                decreases rules@.len() - j,
            {
                let inner = &rules[j];
                proof {
                    assert(texts(paths@[i as int]@) == compare_paths(texts(rules@[i as int].paths@)));
                    assert(texts(paths@[j as int]@) == compare_paths(texts(rules@[j as int].paths@)));
                }
                if !str_eq(outer.id.as_str(), inner.id.as_str()) && inner.risk_level == JunkRiskLevel::Safe {
                    if any_covers(&paths[i], &paths[j]) {
                        hit = true;
                        assert(covers(*outer, rules@[j as int]));
                    }
                }
                j = j + 1;
            }
            proof {
                if !hit {
                    assert(j == rules@.len());
                }
            }
            if hit {
                let ghost old_blocked = blocked@;
                blocked.push(outer.id.clone());
                found = true;
                proof {
                    assert(texts(blocked@) =~= texts(old_blocked).push(outer.id@));
                    assert(held_back(rules@, outer.id@));
                }
            } else {
                proof {
                    assert forall|y: int| 0 <= y < rules@.len() && rules@[y].id@ != outer.id@ implies !#[trigger] covers(*outer, rules@[y]) by {
                    }
                }
            }
        }
        proof {
            assert(found ==> texts(blocked@) == b0.push(rules@[i as int].id@));
            assert(!found ==> texts(blocked@) == b0);
            assert(!found ==> forall|y: int| 0 <= y < rules@.len() && rules@[y].id@ != rules@[i as int].id@ ==> !#[trigger] covers(rules@[i as int], rules@[y]));
            assert forall|x: int, y: int|
                0 <= x < i + 1 && 0 <= y < rules@.len() && rules@[y].id@ != rules@[x].id@ && #[trigger] covers(rules@[x], rules@[y])
                    implies texts(blocked@).contains(rules@[x].id@) by {
                if x < i {
                    assert(b0.contains(rules@[x].id@));
                    let w = choose|w: int| 0 <= w < b0.len() && b0[w] == rules@[x].id@;
                    assert(texts(blocked@)[w] == b0[w]);
                } else {
                    assert(found);
                    assert(texts(blocked@)[b0.len() as int] == rules@[x].id@);
                }
            }
        }
        i = i + 1;
    }
    blocked
}


// ---------------------------------------------------------------------------
// The dry run
// ---------------------------------------------------------------------------

/// Items used within this many seconds are not removed.
pub const RECENCY_THRESHOLD_SECS: u64 = 3600;

/// Nanoseconds in a second.
pub const NANOS_PER_SEC: u64 = 1_000_000_000;

/// One item a cleaning run would remove.
pub struct DryRunInput {
    pub path: String,
    pub rule_id: String,
    pub size_bytes: u64,
}

/// An item the run would remove.
pub struct FileItemPreview {
    pub path: String,
    pub size_mb: u64,
    pub mtime_iso: String,
    pub rule_id: String,
    pub is_symlink: bool,
}

/// An item the run would leave, and why.
pub struct DrySkipReason {
    pub path: String,
    pub rule_id: String,
    pub reason: &'static str,
    pub detail: Option<String>,
}

/// What a cleaning run would do.
pub struct DryRunReport {
    pub will_delete: Vec<FileItemPreview>,
    pub will_skip: Vec<DrySkipReason>,
    pub estimated_freed_mb: u64,
    pub estimated_seconds: u64,
}

/// Why an item cannot be opened for removal.
pub struct LockHit {
    pub code: &'static str,
    pub detail: Option<String>,
}

/// What the file system says of an item: whether it exists, whether it is
/// a link, when it was last modified and accessed (nanoseconds since the
/// epoch), the time now, whether it can be opened for removal, and its
/// modification time in whole seconds.
pub struct FileProbe {
    pub found: bool,
    pub is_symlink: bool,
    pub modified_ns: Option<u64>,
    pub accessed_ns: Option<u64>,
    pub now_ns: u64,
    pub lock: Option<LockHit>,
    pub modified_secs: Option<u64>,
}

/// How long ago an item was last touched (the later of its modification
/// and access times), when that is under the recency threshold.
pub open spec fn recent_age(modified_ns: Option<u64>, accessed_ns: Option<u64>, now_ns: u64) -> Option<u64> {
    let newest: Option<u64> = match (modified_ns, accessed_ns) {
        (Some(m), Some(a)) => Some(if m >= a { m } else { a }),
        (Some(m), None) => Some(m),
        (None, Some(a)) => Some(a),
        (None, None) => None,
    };
    match newest {
        None => None,
        Some(t) => if t <= now_ns && now_ns - t < RECENCY_THRESHOLD_SECS * NANOS_PER_SEC {
            Some((now_ns - t) as u64)
        } else {
            None
        },
    }
}

/// How long ago an item was last touched, if recently (see
/// [`recent_age`]).
pub fn recently_touched(modified_ns: Option<u64>, accessed_ns: Option<u64>, now_ns: u64) -> (r: Option<u64>)
    ensures
        r == recent_age(modified_ns, accessed_ns, now_ns),
{
    let newest: Option<u64> = match (modified_ns, accessed_ns) {
        (Some(m), Some(a)) => Some(if m >= a { m } else { a }),
        (Some(m), None) => Some(m),
        (None, Some(a)) => Some(a),
        (None, None) => None,
    };
    match newest {
        None => None,
        Some(t) => {
            if t <= now_ns && now_ns - t < RECENCY_THRESHOLD_SECS * NANOS_PER_SEC {
                Some(now_ns - t)
            } else {
                None
            }
        },
    }
}

/// How long ago an item was used: whole seconds under a minute, else whole
/// minutes.
pub open spec fn age_text(age_ns: u64) -> Seq<char> {
    let secs = age_ns / NANOS_PER_SEC;
    if secs < 60 {
        decimal(secs as nat) + " 秒前还在使用"@
    } else {
        decimal((secs / 60) as nat) + " 分钟前还在使用"@
    }
}

/// How long ago an item was used (see [`age_text`]).
pub fn format_age_detail(age_ns: u64) -> (r: String)
    ensures
        r@ == age_text(age_ns),
{
    let secs = age_ns / NANOS_PER_SEC;
    let mut s = String::new();
    let ghost s0 = s@;
    if secs < 60 {
        push_decimal(&mut s, secs);
        push_str(&mut s, " 秒前还在使用");
    } else {
        push_decimal(&mut s, secs / 60);
        push_str(&mut s, " 分钟前还在使用");
    }
    assert(s0 =~= Seq::<char>::empty());
    assert(s@ =~= age_text(age_ns));
    s
}

/// The total of the megabyte sizes of previews, saturating.
pub open spec fn total_mb(items: Seq<FileItemPreview>) -> int
    decreases items.len(),
{
    if items.len() == 0 {
        0
    } else {
        sat_u64(total_mb(items.drop_last()) + items.last().size_mb)
    }
}

/// The time a removal takes: a second per 80 MB plus a second per 50
/// items, at least one second.
pub open spec fn estimate(items: Seq<FileItemPreview>) -> u64 {
    let t = sat_u64(total_mb(items) / 80 + items.len() / 50);
    if t < 1 {
        1
    } else {
        t as u64
    }
}

fn sum_mb(items: &Vec<FileItemPreview>) -> (r: u64)
    ensures
        r == total_mb(items@),
{
    let mut total: u64 = 0;
    let mut k: usize = 0;
    while k < items.len()
        invariant
            k <= items@.len(),
            total == total_mb(items@.take(k as int)),
        decreases items@.len() - k,
    {
        assert(items@.take(k + 1).drop_last() =~= items@.take(k as int));
        total = total.saturating_add(items[k].size_mb);
        k = k + 1;
    }
    assert(items@.take(items@.len() as int) =~= items@);
    total
}

/// The time a removal takes (see [`estimate`]).
pub fn estimate_seconds(items: &Vec<FileItemPreview>) -> (r: u64)
    ensures
        r == estimate(items@),
{
    let total = sum_mb(items);
    let mb_secs = total / 80;
    let item_secs = (items.len() / 50) as u64;
    let t = mb_secs.saturating_add(item_secs);
    if t < 1 {
        1
    } else {
        t
    }
}

/// The text given for an item whose rule is held back.
pub const PARENT_CHILD_DETAIL: &'static str = "此规则的清理路径覆盖了其他更细粒度规则的目标，跳过避免误删";

/// Why an item would be left, with its detail, or none when it would be
/// removed: its rule is held back; it is gone; it was used recently; it is
/// not a link and cannot be opened for removal.
pub open spec fn skip_of(item: DryRunInput, blocked: Seq<Seq<char>>, p: FileProbe) -> Option<(Seq<char>, Option<Seq<char>>)> {
    if blocked.contains(item.rule_id@) {
        Some(("parent_child_conflict"@, Some(PARENT_CHILD_DETAIL@)))
    } else if !p.found {
        Some(("not_found"@, None))
    } else if recent_age(p.modified_ns, p.accessed_ns, p.now_ns) is Some {
        Some(("too_recent"@, Some(age_text(recent_age(p.modified_ns, p.accessed_ns, p.now_ns)->0))))
    } else if !p.is_symlink && p.lock is Some {
        Some((p.lock->0.code@, opt_text(p.lock->0.detail)))
    } else {
        None
    }
}

pub open spec fn opt_text(o: Option<String>) -> Option<Seq<char>> {
    match o {
        Some(s) => Some(s@),
        None => None,
    }
}

/// The modification time shown for an item: empty when unknown or beyond
/// the range shown.
pub open spec fn mtime_text(p: FileProbe) -> Seq<char> {
    match p.modified_secs {
        Some(s) => if s < FORMATTED_SECS_LIMIT { timestamp_text(s as nat) } else { Seq::empty() },
        None => Seq::empty(),
    }
}

/// A skip record for an item.
pub open spec fn skip_matches(s: DrySkipReason, item: DryRunInput, why: (Seq<char>, Option<Seq<char>>)) -> bool {
    &&& s.path@ == item.path@
    &&& s.rule_id@ == item.rule_id@
    &&& s.reason@ == why.0
    &&& opt_text(s.detail) == why.1
}

/// A removal preview for an item.
pub open spec fn preview_matches(v: FileItemPreview, item: DryRunInput, p: FileProbe) -> bool {
    &&& v.path@ == item.path@
    &&& v.size_mb == item.size_bytes / 1048576
    &&& v.mtime_iso@ == mtime_text(p)
    &&& v.rule_id@ == item.rule_id@
    &&& v.is_symlink == p.is_symlink
}

/// The positions among the first `n` items that would be removed.
pub open spec fn removed_upto(items: Seq<DryRunInput>, blocked: Seq<Seq<char>>, probes: Seq<FileProbe>, n: int) -> Seq<int>
    decreases n,
{
    if n <= 0 {
        Seq::empty()
    } else if skip_of(items[n - 1], blocked, probes[n - 1]) is None {
        removed_upto(items, blocked, probes, n - 1).push(n - 1)
    } else {
        removed_upto(items, blocked, probes, n - 1)
    }
}

/// The positions among the first `n` items that would be left.
pub open spec fn skipped_upto(items: Seq<DryRunInput>, blocked: Seq<Seq<char>>, probes: Seq<FileProbe>, n: int) -> Seq<int>
    decreases n,
{
    if n <= 0 {
        Seq::empty()
    } else if skip_of(items[n - 1], blocked, probes[n - 1]) is Some {
        skipped_upto(items, blocked, probes, n - 1).push(n - 1)
    } else {
        skipped_upto(items, blocked, probes, n - 1)
    }
}

fn contains_text(v: &Vec<String>, s: &str) -> (r: bool)
    ensures
        r == texts(v@).contains(s@),
{
    let mut k: usize = 0;
    while k < v.len()
        invariant
            k <= v@.len(),
            forall|q: int| 0 <= q < k ==> texts(v@)[q] != s@,
        decreases v@.len() - k,
    {
        if str_eq(v[k].as_str(), s) {
            assert(texts(v@)[k as int] == s@);
            return true;
        }
        k = k + 1;
    }
    false
}

fn item_skip(item: &DryRunInput, blocked: &Vec<String>, p: &FileProbe) -> (r: Option<DrySkipReason>)
    ensures
        r is None <==> skip_of(*item, texts(blocked@), *p) is None,
        r matches Some(s) ==> skip_matches(s, *item, skip_of(*item, texts(blocked@), *p)->0),
{
    if contains_text(blocked, item.rule_id.as_str()) {
        return Some(DrySkipReason {
            path: item.path.clone(),
            rule_id: item.rule_id.clone(),
            reason: "parent_child_conflict",
            detail: Some(owned(PARENT_CHILD_DETAIL)),
        });
    }
    if !p.found {
        return Some(DrySkipReason { path: item.path.clone(), rule_id: item.rule_id.clone(), reason: "not_found", detail: None });
    }
    match recently_touched(p.modified_ns, p.accessed_ns, p.now_ns) {
        Some(age) => {
            return Some(DrySkipReason {
                path: item.path.clone(),
                rule_id: item.rule_id.clone(),
                reason: "too_recent",
                detail: Some(format_age_detail(age)),
            });
        },
        None => {},
    }
    if !p.is_symlink {
        match &p.lock {
            Some(hit) => {
                return Some(DrySkipReason {
                    path: item.path.clone(),
                    rule_id: item.rule_id.clone(),
                    reason: hit.code,
                    detail: copy_opt_string(&hit.detail),
                });
            },
            None => {},
        }
    }
    None
}

/// What a cleaning run would do with the items, given what the file system
/// says of each (`probes[i]` for item `i`) and the ids of the rules held
/// back: the items removed, in order, with their previews; the items left,
/// in order, with why; the megabytes freed (saturating); the time it takes.
pub fn run_dry_run(items: &Vec<DryRunInput>, blocked: &Vec<String>, probes: &Vec<FileProbe>) -> (r: DryRunReport)
    requires
        probes@.len() == items@.len(),
    ensures
        ({
            let n = items@.len() as int;
            let removed = removed_upto(items@, texts(blocked@), probes@, n);
            let skipped = skipped_upto(items@, texts(blocked@), probes@, n);
            &&& r.will_delete@.len() == removed.len()
            &&& forall|k: int| 0 <= k < removed.len() ==> #[trigger] preview_matches(
                r.will_delete@[k],
                items@[removed[k]],
                probes@[removed[k]],
            )
            &&& r.will_skip@.len() == skipped.len()
            &&& forall|k: int| 0 <= k < skipped.len() ==> #[trigger] skip_matches(
                r.will_skip@[k],
                items@[skipped[k]],
                skip_of(items@[skipped[k]], texts(blocked@), probes@[skipped[k]])->0,
            )
            &&& r.estimated_freed_mb == total_mb(r.will_delete@)
            &&& r.estimated_seconds == estimate(r.will_delete@)
        }),
{
    let ghost bv = texts(blocked@);
    let mut will_delete: Vec<FileItemPreview> = Vec::new();
    let mut will_skip: Vec<DrySkipReason> = Vec::new();
    let mut i: usize = 0;
    while i < items.len()
        invariant
            i <= items@.len(),
            probes@.len() == items@.len(),
            bv == texts(blocked@),
            will_delete@.len() == removed_upto(items@, bv, probes@, i as int).len(),
            forall|k: int| 0 <= k < will_delete@.len() ==> #[trigger] preview_matches(
                will_delete@[k],
                items@[removed_upto(items@, bv, probes@, i as int)[k]],
                probes@[removed_upto(items@, bv, probes@, i as int)[k]],
            ),
            will_skip@.len() == skipped_upto(items@, bv, probes@, i as int).len(),
            forall|k: int| 0 <= k < will_skip@.len() ==> #[trigger] skip_matches(
                will_skip@[k],
                items@[skipped_upto(items@, bv, probes@, i as int)[k]],
                skip_of(items@[skipped_upto(items@, bv, probes@, i as int)[k]], bv, probes@[skipped_upto(items@, bv, probes@, i as int)[k]])->0,
            ),
        decreases items@.len() - i,
    {
        let item = &items[i];
        let p = &probes[i];
        match item_skip(item, blocked, p) {
            Some(s) => {
                will_skip.push(s);
            },
            None => {
                let mtime_iso = match p.modified_secs {
                    Some(secs) => {
                        if secs < FORMATTED_SECS_LIMIT {
                            format_unix_seconds_local(secs)
                        } else {
                            String::new()
                        }
                    },
                    None => String::new(),
                };
                will_delete.push(FileItemPreview {
                    path: item.path.clone(),
                    size_mb: item.size_bytes / 1048576,
                    mtime_iso,
                    rule_id: item.rule_id.clone(),
                    is_symlink: p.is_symlink,
                });
            },
        }
        i = i + 1;
    }
    let estimated_freed_mb = sum_mb(&will_delete);
    let estimated_seconds = estimate_seconds(&will_delete);
    DryRunReport { will_delete, will_skip, estimated_freed_mb, estimated_seconds }
}

// ---------------------------------------------------------------------------
// Locks, and the paths of the rules
// ---------------------------------------------------------------------------

/// The Win32 error code of a failed open: the low 16 bits of its HRESULT.
pub open spec fn win32_code(hresult: i32) -> u32 {
    ((hresult as u32) % 65536) as u32
}

/// The lock reported for a Win32 error of an open for removal: sharing and
/// lock violations are a lock held by a process, access denied is missing
/// rights, a missing file or path is not found, and any other error counts
/// as a lock, with its code in the detail.
pub open spec fn lock_for_code(code: u32) -> (Seq<char>, Option<Seq<char>>) {
    if code == 32 || code == 33 {
        ("locked_by_process"@, Some("文件被其他进程独占打开"@))
    } else if code == 5 {
        ("permission_denied"@, Some("权限不足，建议以管理员运行"@))
    } else if code == 2 || code == 3 {
        ("not_found"@, None)
    } else {
        ("locked_by_process"@, Some("无法以删除权限打开（Win32 错误 "@ + decimal(code as nat) + "）"@))
    }
}

/// What opening an item for removal says of a lock: nothing when the open
/// succeeded (`None`), else the lock its HRESULT stands for (see
/// [`lock_for_code`]).
pub fn check_lock(open_error: Option<i32>) -> (r: Option<LockHit>)
    ensures
        open_error is None ==> r is None,
        open_error matches Some(h) ==> (r matches Some(hit) && (hit.code@, match hit.detail {
            Some(d) => Some(d@),
            None => None,
        }) == lock_for_code(win32_code(h))),
{
    match open_error {
        None => None,
        Some(h) => {
            let raw = h as u32;
            let code = raw & 0xFFFF;
            assert(code == (raw % 65536) as u32) by (bit_vector)
                requires
                    code == raw & 0xFFFF,
            ;
            assert(raw == (h as u32));
            if code == 32 || code == 33 {
                Some(LockHit { code: "locked_by_process", detail: Some(owned("文件被其他进程独占打开")) })
            } else if code == 5 {
                Some(LockHit { code: "permission_denied", detail: Some(owned("权限不足，建议以管理员运行")) })
            } else if code == 2 || code == 3 {
                Some(LockHit { code: "not_found", detail: None })
            } else {
                let mut detail = owned("无法以删除权限打开（Win32 错误 ");
                push_decimal(&mut detail, code as u64);
                push_str(&mut detail, "）");
                Some(LockHit { code: "locked_by_process", detail: Some(detail) })
            }
        },
    }
}

/// Each rule's id with its paths, in rule order.
pub fn collect_rule_paths(rules: &Vec<JunkRule>) -> (r: Vec<(String, Vec<String>)>)
    ensures
        r@.len() == rules@.len(),
        forall|k: int| 0 <= k < r@.len() ==> (#[trigger] r@[k]).0@ == rules@[k].id@ && texts(r@[k].1@) == texts(rules@[k].paths@),
{
    let mut out: Vec<(String, Vec<String>)> = Vec::new();
    let mut k: usize = 0;
    while k < rules.len()
        invariant
            k <= rules@.len(),
            out@.len() == k,
            forall|q: int| 0 <= q < k ==> (#[trigger] out@[q]).0@ == rules@[q].id@ && texts(out@[q].1@) == texts(rules@[q].paths@),
        decreases rules@.len() - k,
    {
        let paths = copy_strings(&rules[k].paths);
        out.push((rules[k].id.clone(), paths));
        k = k + 1;
    }
    out
}

fn copy_strings(v: &Vec<String>) -> (r: Vec<String>)
    ensures
        texts(r@) == texts(v@),
{
    let mut out: Vec<String> = Vec::new();
    let mut i: usize = 0;
    while i < v.len()
        invariant
            i <= v@.len(),
            out@.len() == i,
            forall|q: int| 0 <= q < i ==> #[trigger] out@[q]@ == v@[q]@,
        decreases v@.len() - i,
    {
        out.push(v[i].clone());
        i = i + 1;
    }
    assert(texts(out@) =~= texts(v@));
    out
}

/// The first rule of the given id, if any.
pub open spec fn first_rule_with_id(rules: Seq<JunkRule>, id: Seq<char>, i: int) -> Option<int>
    decreases rules.len() - i,
{
    if i < 0 || i >= rules.len() {
        None
    } else if rules[i].id@ == id {
        Some(i)
    } else {
        first_rule_with_id(rules, id, i + 1)
    }
}

/// The paths of the first rule of the given id; none when no rule has it.
pub fn target_paths_for(rules: &Vec<JunkRule>, rule_id: &str) -> (r: Option<Vec<String>>)
    ensures
        first_rule_with_id(rules@, rule_id@, 0) is None ==> r is None,
        first_rule_with_id(rules@, rule_id@, 0) matches Some(k) ==> (r matches Some(p) && texts(p@) == texts(
            rules@[k].paths@,
        )),
{
    let mut i: usize = 0;
    while i < rules.len()
        invariant
            i <= rules@.len(),
            first_rule_with_id(rules@, rule_id@, 0) == first_rule_with_id(rules@, rule_id@, i as int),
        decreases rules@.len() - i,
    {
        if str_eq(rules[i].id.as_str(), rule_id) {
            return Some(copy_strings(&rules[i].paths));
        }
        i = i + 1;
    }
    None
}

} // verus!
