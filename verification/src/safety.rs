//! Migration-safety verdicts: the findings each safety gate reports and the
//! verdict they add up to.
use vstd::prelude::*;
use vstd::hash_map::StringHashMap;
use crate::text::{
    chars_of, contains, contains_seq, is_prefix_of, is_sep, lemma_lex_irreflexive, lemma_lex_transitive,
    lemma_lex_trichotomy, lex_lt, occurs_at, owned, decimal, digit_char, ascii_lower, to_ascii_lowercase, push_char, push_decimal, push_str, replace_all, replace_char,
    replace_char_str, replace_str, starts_with, str_eq, str_less, string_from_chars, trim_end_char,
    trim_end_char_str, trim_matches_char, trim_start_char,
};

verus! {

#[derive(Debug, Clone, Copy, PartialEq, Eq, Structural)]
pub enum Verdict {
    Safe,
    SafeAfterAction,
    Blocked,
    SystemCritical,
}

#[derive(Debug, Clone, Copy, PartialEq, Eq, Structural)]
pub enum Severity {
    Info,
    Warning,
    Blocker,
}

/// One observation of one safety gate.
#[derive(Debug, Clone)]
pub struct Finding {
    pub gate: String,
    pub severity: Severity,
    pub message: String,
    pub detail: Option<String>,
}

/// The outcome of analysing one directory for migration.
#[derive(Debug, Clone)]
pub struct MigrationSafety {
    pub verdict: Verdict,
    pub can_migrate: bool,
    pub findings: Vec<Finding>,
    pub required_actions: Vec<String>,
    pub app_type: String,
    pub analysis_duration_ms: u64,
    /// Time each gate took, by gate name.
    pub gate_durations_ms: Vec<(String, u64)>,
}

/// A finding as plain values: gate, severity, message, detail.
pub open spec fn finding_view(f: Finding) -> (Seq<char>, Severity, Seq<char>, Option<Seq<char>>) {
    (f.gate@, f.severity, f.message@, match f.detail {
        Some(d) => Some(d@),
        None => None,
    })
}

/// A migration analysis as plain values, field by field.
pub open spec fn safety_view(m: MigrationSafety) -> (
    Verdict,
    bool,
    Seq<(Seq<char>, Severity, Seq<char>, Option<Seq<char>>)>,
    Seq<Seq<char>>,
    Seq<char>,
    u64,
    Seq<(Seq<char>, u64)>,
) {
    (
        m.verdict,
        m.can_migrate,
        m.findings@.map_values(|f: Finding| finding_view(f)),
        m.required_actions@.map_values(|a: String| a@),
        m.app_type@,
        m.analysis_duration_ms,
        m.gate_durations_ms@.map_values(|g: (String, u64)| (g.0@, g.1)),
    )
}

/// [`safety_view`] of an optional analysis.
pub open spec fn safety_view_opt(m: Option<MigrationSafety>) -> Option<
    (
        Verdict,
        bool,
        Seq<(Seq<char>, Severity, Seq<char>, Option<Seq<char>>)>,
        Seq<Seq<char>>,
        Seq<char>,
        u64,
        Seq<(Seq<char>, u64)>,
    ),
> {
    match m {
        Some(x) => Some(safety_view(x)),
        None => None,
    }
}

/// A copy of a finding.
pub fn copy_finding(f: &Finding) -> (r: Finding)
    ensures
        finding_view(r) == finding_view(*f),
{
    let detail = match &f.detail {
        Some(d) => Some(owned(d.as_str())),
        None => None,
    };
    Finding { gate: owned(f.gate.as_str()), severity: f.severity, message: owned(f.message.as_str()), detail }
}

/// A copy of a migration analysis.
pub fn copy_safety(m: &MigrationSafety) -> (r: MigrationSafety)
    ensures
        safety_view(r) == safety_view(*m),
{
    let mut findings: Vec<Finding> = Vec::new();
    let mut i: usize = 0;
    while i < m.findings.len()
        invariant
            i <= m.findings.len(),
            findings@.len() == i,
            forall|j: int| 0 <= j < i ==> #[trigger] finding_view(findings@[j]) == finding_view(m.findings@[j]),
        decreases m.findings.len() - i,
    {
        findings.push(copy_finding(&m.findings[i]));
        i = i + 1;
    }
    let mut actions: Vec<String> = Vec::new();
    let mut a: usize = 0;
    while a < m.required_actions.len()
        invariant
            a <= m.required_actions.len(),
            actions@.len() == a,
            forall|j: int| 0 <= j < a ==> #[trigger] actions@[j]@ == m.required_actions@[j]@,
        decreases m.required_actions.len() - a,
    {
        actions.push(owned(m.required_actions[a].as_str()));
        a = a + 1;
    }
    let mut gates: Vec<(String, u64)> = Vec::new();
    let mut g: usize = 0;
    while g < m.gate_durations_ms.len()
        invariant
            g <= m.gate_durations_ms.len(),
            gates@.len() == g,
            forall|j: int| 0 <= j < g ==> #[trigger] gates@[j].0@ == m.gate_durations_ms@[j].0@ && gates@[j].1
                == m.gate_durations_ms@[j].1,
        decreases m.gate_durations_ms.len() - g,
    {
        gates.push((owned(m.gate_durations_ms[g].0.as_str()), m.gate_durations_ms[g].1));
        g = g + 1;
    }
    let r = MigrationSafety {
        verdict: m.verdict,
        can_migrate: m.can_migrate,
        findings,
        required_actions: actions,
        app_type: owned(m.app_type.as_str()),
        analysis_duration_ms: m.analysis_duration_ms,
        gate_durations_ms: gates,
    };
    assert(r.findings@.map_values(|f: Finding| finding_view(f)) =~= m.findings@.map_values(|f: Finding| finding_view(f)));
    assert(r.required_actions@.map_values(|a: String| a@) =~= m.required_actions@.map_values(|a: String| a@));
    assert(r.gate_durations_ms@.map_values(|g: (String, u64)| (g.0@, g.1)) =~= m.gate_durations_ms@.map_values(
        |g: (String, u64)| (g.0@, g.1),
    ));
    r
}

/// A copy of an optional migration analysis.
pub fn copy_safety_opt(m: &Option<MigrationSafety>) -> (r: Option<MigrationSafety>)
    ensures
        safety_view_opt(r) == safety_view_opt(*m),
{
    match m {
        Some(x) => Some(copy_safety(x)),
        None => None,
    }
}

// ---------------------------------------------------------------------------
// The order of findings
// ---------------------------------------------------------------------------

/// Blockers first, then warnings, then notes.
pub open spec fn severity_rank_of(s: Severity) -> int {
    match s {
        Severity::Blocker => 0,
        Severity::Warning => 1,
        Severity::Info => 2,
    }
}

pub fn severity_rank(severity: &Severity) -> (r: u8)
    ensures
        r == severity_rank_of(*severity),
{
    match severity {
        Severity::Blocker => 0,
        Severity::Warning => 1,
        Severity::Info => 2,
    }
}

/// The text of an optional detail.
pub open spec fn detail_view(d: Option<String>) -> Option<Seq<char>> {
    match d {
        Some(s) => Some(s@),
        None => None,
    }
}

/// Order of optional details: none first, then by text.
pub open spec fn detail_lt(a: Option<Seq<char>>, b: Option<Seq<char>>) -> bool {
    match (a, b) {
        (None, Some(_)) => true,
        (Some(x), Some(y)) => lex_lt(x, y),
        _ => false,
    }
}

/// Two findings with the same gate, severity, message and detail.
pub open spec fn same_finding(a: Finding, b: Finding) -> bool {
    &&& a.gate@ == b.gate@
    &&& a.severity == b.severity
    &&& a.message@ == b.message@
    &&& detail_view(a.detail) == detail_view(b.detail)
}

/// Findings ordered by gate, then severity (blockers first), then message,
/// then detail.
pub open spec fn finding_lt(a: Finding, b: Finding) -> bool {
    ||| lex_lt(a.gate@, b.gate@)
    ||| (a.gate@ == b.gate@ && severity_rank_of(a.severity) < severity_rank_of(b.severity))
    ||| (a.gate@ == b.gate@ && a.severity == b.severity && lex_lt(a.message@, b.message@))
    ||| (a.gate@ == b.gate@ && a.severity == b.severity && a.message@ == b.message@ && detail_lt(
        detail_view(a.detail),
        detail_view(b.detail),
    ))
}

proof fn lemma_detail_order(a: Option<Seq<char>>, b: Option<Seq<char>>)
    ensures
        detail_lt(a, b) || a == b || detail_lt(b, a),
        !(detail_lt(a, b) && detail_lt(b, a)),
        !detail_lt(a, a),
{
    match (a, b) {
        (Some(x), Some(y)) => {
            lemma_lex_trichotomy(x, y);
        },
        _ => {},
    }
    match a {
        Some(x) => {
            lemma_lex_irreflexive(x);
        },
        None => {},
    }
}

proof fn lemma_detail_transitive(a: Option<Seq<char>>, b: Option<Seq<char>>, c: Option<Seq<char>>)
    requires
        detail_lt(a, b),
        detail_lt(b, c),
    ensures
        detail_lt(a, c),
{
    match (a, b, c) {
        (Some(x), Some(y), Some(z)) => {
            lemma_lex_transitive(x, y, z);
        },
        _ => {},
    }
}

/// The order of findings is a strict total order on their keys.
pub proof fn lemma_finding_order(a: Finding, b: Finding)
    ensures
        finding_lt(a, b) || same_finding(a, b) || finding_lt(b, a),
        !(finding_lt(a, b) && finding_lt(b, a)),
        !finding_lt(a, a),
{
    lemma_lex_trichotomy(a.gate@, b.gate@);
    lemma_lex_trichotomy(a.message@, b.message@);
    lemma_lex_irreflexive(a.gate@);
    lemma_lex_irreflexive(a.message@);
    lemma_detail_order(detail_view(a.detail), detail_view(b.detail));
}

pub proof fn lemma_finding_transitive(a: Finding, b: Finding, c: Finding)
    requires
        finding_lt(a, b),
        finding_lt(b, c),
    ensures
        finding_lt(a, c),
{
    lemma_lex_trichotomy(a.gate@, b.gate@);
    lemma_lex_trichotomy(b.gate@, c.gate@);
    lemma_lex_irreflexive(a.gate@);
    lemma_lex_irreflexive(a.message@);
    lemma_lex_trichotomy(a.message@, b.message@);
    lemma_lex_trichotomy(b.message@, c.message@);
    if lex_lt(a.gate@, b.gate@) && lex_lt(b.gate@, c.gate@) {
        lemma_lex_transitive(a.gate@, b.gate@, c.gate@);
    }
    if a.gate@ == b.gate@ && b.gate@ == c.gate@ && a.severity == b.severity && b.severity == c.severity {
        if lex_lt(a.message@, b.message@) && lex_lt(b.message@, c.message@) {
            lemma_lex_transitive(a.message@, b.message@, c.message@);
        }
        if a.message@ == b.message@ && b.message@ == c.message@ {
            lemma_detail_transitive(detail_view(a.detail), detail_view(b.detail), detail_view(c.detail));
        }
    }
}

fn opt_str_eq(a: &Option<String>, b: &Option<String>) -> (r: bool)
    ensures
        r == (detail_view(*a) == detail_view(*b)),
{
    match (a, b) {
        (Some(x), Some(y)) => str_eq(x.as_str(), y.as_str()),
        (None, None) => true,
        _ => false,
    }
}

fn detail_less(a: &Option<String>, b: &Option<String>) -> (r: bool)
    ensures
        r == detail_lt(detail_view(*a), detail_view(*b)),
{
    match (a, b) {
        (None, Some(_)) => true,
        (Some(x), Some(y)) => str_less(x.as_str(), y.as_str()),
        _ => false,
    }
}

pub fn finding_less(a: &Finding, b: &Finding) -> (r: bool)
    ensures
        r == finding_lt(*a, *b),
{
    if str_less(a.gate.as_str(), b.gate.as_str()) {
        return true;
    }
    if !str_eq(a.gate.as_str(), b.gate.as_str()) {
        return false;
    }
    let ra = severity_rank(&a.severity);
    let rb = severity_rank(&b.severity);
    if ra < rb {
        return true;
    }
    if ra != rb {
        return false;
    }
    if str_less(a.message.as_str(), b.message.as_str()) {
        return true;
    }
    if !str_eq(a.message.as_str(), b.message.as_str()) {
        return false;
    }
    detail_less(&a.detail, &b.detail)
}

pub fn same_finding_exec(a: &Finding, b: &Finding) -> (r: bool)
    ensures
        r == same_finding(*a, *b),
{
    str_eq(a.gate.as_str(), b.gate.as_str()) && a.severity == b.severity && str_eq(
        a.message.as_str(),
        b.message.as_str(),
    ) && opt_str_eq(&a.detail, &b.detail)
}

/// Some finding of `s` is alike to `f`.
pub open spec fn has_alike(s: Seq<Finding>, f: Finding) -> bool {
    exists|k: int| 0 <= k < s.len() && #[trigger] same_finding(s[k], f)
}

/// Some string of `s` has the text `t`.
pub open spec fn has_text(s: Seq<String>, t: Seq<char>) -> bool {
    exists|k: int| 0 <= k < s.len() && (#[trigger] s[k])@ == t
}

/// Findings in strictly increasing order: sorted with no two alike.
pub open spec fn findings_strictly_sorted(s: Seq<Finding>) -> bool {
    forall|k: int| 0 <= k < s.len() - 1 ==> #[trigger] finding_lt(s[k], s[k + 1])
}

/// Sorts findings by gate, severity, message and detail and drops repeats.
pub fn dedup_findings(findings: &mut Vec<Finding>)
    ensures
        findings_strictly_sorted(final(findings)@),
        forall|k: int| 0 <= k < final(findings)@.len() ==> old(findings)@.contains(#[trigger] final(findings)@[k]),
        forall|j: int| 0 <= j < old(findings)@.len() ==> #[trigger] has_alike(final(findings)@, old(findings)@[j]),
{
    let ghost orig = findings@;
    let mut src: Vec<Finding> = Vec::new();
    std::mem::swap(&mut src, findings);
    let mut out: Vec<Finding> = Vec::new();
    while src.len() > 0
        invariant
            orig == old(findings)@,
            findings_strictly_sorted(out@),
            forall|k: int| 0 <= k < out@.len() ==> orig.contains(#[trigger] out@[k]),
            forall|k: int| 0 <= k < src@.len() ==> orig.contains(#[trigger] src@[k]),
            out@.len() > 0 ==> forall|k: int| 0 <= k < src@.len() ==> !#[trigger] finding_lt(src@[k], out@.last()),
            forall|j: int| 0 <= j < orig.len() ==> (src@.contains(#[trigger] orig[j]) || has_alike(out@, orig[j])),
        decreases src.len(),
    {
        // the least remaining finding
        let mut m: usize = 0;
        let mut i: usize = 1;
        proof {
            lemma_finding_order(src@[0], src@[0]);
        }
        while i < src.len()
            invariant
                0 <= m < i <= src.len(),
                forall|j: int| 0 <= j < i ==> !#[trigger] finding_lt(src@[j], src@[m as int]),
            decreases src.len() - i,
        {
            if finding_less(&src[i], &src[m]) {
                proof {
                    assert forall|j: int| 0 <= j < i + 1 implies !#[trigger] finding_lt(src@[j], src@[i as int]) by {
                        if j < i && finding_lt(src@[j], src@[i as int]) {
                            lemma_finding_transitive(src@[j], src@[i as int], src@[m as int]);
                        }
                        if j == i {
                            lemma_finding_order(src@[j], src@[j]);
                        }
                    }
                }
                m = i;
            }
            i = i + 1;
        }
        let ghost before_src = src@;
        let ghost before_out = out@;
        let x = src.remove(m);
        proof {
            assert forall|k: int| 0 <= k < src@.len() implies !#[trigger] finding_lt(src@[k], x) by {
                if k < m {
                    assert(src@[k] == before_src[k]);
                } else {
                    assert(src@[k] == before_src[k + 1]);
                }
            }
            assert forall|k: int| 0 <= k < src@.len() implies orig.contains(#[trigger] src@[k]) by {
                if k < m {
                    assert(src@[k] == before_src[k]);
                } else {
                    assert(src@[k] == before_src[k + 1]);
                }
            }
            assert(orig.contains(x));
        }
        let keep = if out.len() == 0 {
            true
        } else {
            !same_finding_exec(&out[out.len() - 1], &x)
        };
        if keep {
            proof {
                if out@.len() > 0 {
                    lemma_finding_order(out@.last(), x);
                }
            }
            out.push(x);
            proof {
                assert forall|k: int| 0 <= k < out@.len() - 1 implies #[trigger] finding_lt(out@[k], out@[k + 1]) by {
                    if k < out@.len() - 2 {
                        assert(out@[k] == before_out[k]);
                        assert(out@[k + 1] == before_out[k + 1]);
                    }
                }
                assert forall|k: int| 0 <= k < out@.len() implies orig.contains(#[trigger] out@[k]) by {
                    if k < out@.len() - 1 {
                        assert(out@[k] == before_out[k]);
                    }
                }
            }
        } else {
            proof {
                assert forall|k: int| 0 <= k < src@.len() implies !#[trigger] finding_lt(src@[k], out@.last()) by {
                    assert(!finding_lt(src@[k], x));
                }
            }
        }
        proof {
            assert forall|j: int| 0 <= j < orig.len() implies (src@.contains(#[trigger] orig[j]) || has_alike(out@, orig[j])) by {
                if before_src.contains(orig[j]) {
                    let p = choose|p: int| 0 <= p < before_src.len() && before_src[p] == orig[j];
                    if p < m {
                        assert(src@[p] == before_src[p]);
                    } else if p > m {
                        assert(src@[p - 1] == before_src[p]);
                    } else {
                        assert(same_finding(out@[out@.len() - 1], orig[j]));
                    }
                } else {
                    let k = choose|k: int| 0 <= k < before_out.len() && #[trigger] same_finding(before_out[k], orig[j]);
                    assert(out@[k] == before_out[k]);
                    assert(same_finding(out@[k], orig[j]));
                }
            }
        }
    }
    *findings = out;
}

// ---------------------------------------------------------------------------
// Verdicts
// ---------------------------------------------------------------------------

/// Whether any finding blocks the migration.
pub open spec fn any_blocker(f: Seq<Finding>) -> bool {
    exists|i: int| 0 <= i < f.len() && #[trigger] f[i].severity == Severity::Blocker
}

pub fn has_blocker(findings: &Vec<Finding>) -> (r: bool)
    ensures
        r == any_blocker(findings@),
{
    let mut i: usize = 0;
    while i < findings.len()
        invariant
            i <= findings.len(),
            forall|j: int| 0 <= j < i ==> findings@[j].severity != Severity::Blocker,
        decreases findings.len() - i,
    {
        if findings[i].severity == Severity::Blocker {
            return true;
        }
        i = i + 1;
    }
    false
}

/// The name of the system-critical gate.
pub const SYSTEM_CRITICAL_GATE: &'static str = "system_critical";

/// The name of the file-lock gate.
pub const FILE_LOCKS_GATE: &'static str = "file_locks";

/// The verdict findings add up to: any system-critical finding makes the
/// path system-critical; else any blocker blocks; else any warning asks
/// for an action first; else it is safe.
pub open spec fn verdict_of(f: Seq<Finding>) -> Verdict {
    if exists|i: int| 0 <= i < f.len() && #[trigger] f[i].gate@ == SYSTEM_CRITICAL_GATE@ {
        Verdict::SystemCritical
    } else if any_blocker(f) {
        Verdict::Blocked
    } else if exists|i: int| 0 <= i < f.len() && #[trigger] f[i].severity == Severity::Warning {
        Verdict::SafeAfterAction
    } else {
        Verdict::Safe
    }
}

/// What findings decide, whatever they hold: a finding of the
/// system-critical gate makes the path system-critical; otherwise a
/// blocking finding blocks it; otherwise a warning asks for an action
/// first; otherwise it is safe. In particular a blocking finding never
/// leaves the path safe, with or without an action first.
pub proof fn law_blocker_forbids_migration(f: Seq<Finding>)
    ensures
        (exists|i: int| 0 <= i < f.len() && #[trigger] f[i].gate@ == SYSTEM_CRITICAL_GATE@) ==> verdict_of(f)
            == Verdict::SystemCritical,
        (exists|i: int| 0 <= i < f.len() && #[trigger] f[i].severity == Severity::Blocker) ==> (verdict_of(f)
            == Verdict::Blocked || verdict_of(f) == Verdict::SystemCritical),
        (exists|i: int| 0 <= i < f.len() && #[trigger] f[i].severity == Severity::Blocker) ==> verdict_of(f)
            != Verdict::Safe && verdict_of(f) != Verdict::SafeAfterAction,
        (forall|i: int| 0 <= i < f.len() ==> (#[trigger] f[i]).gate@ != SYSTEM_CRITICAL_GATE@ && f[i].severity
            != Severity::Blocker) ==> ((exists|i: int| 0 <= i < f.len() && #[trigger] f[i].severity == Severity::Warning)
            <==> verdict_of(f) == Verdict::SafeAfterAction),
        (forall|i: int| 0 <= i < f.len() ==> (#[trigger] f[i]).gate@ != SYSTEM_CRITICAL_GATE@ && f[i].severity
            == Severity::Info) ==> verdict_of(f) == Verdict::Safe,
{
    if forall|i: int| 0 <= i < f.len() ==> (#[trigger] f[i]).gate@ != SYSTEM_CRITICAL_GATE@ && f[i].severity == Severity::Info {
        assert(!any_blocker(f));
    }
}

/// Only a safe verdict, with or without an action first, lets a migration go
/// ahead: never a blocked or system-critical one.
pub proof fn law_only_safe_verdicts_allow()
    ensures
        verdict_allows(Verdict::Safe),
        verdict_allows(Verdict::SafeAfterAction),
        !verdict_allows(Verdict::Blocked),
        !verdict_allows(Verdict::SystemCritical),
{
}

pub fn derive_verdict(findings: &Vec<Finding>) -> (r: Verdict)
    ensures
        r == verdict_of(findings@),
        (exists|i: int| 0 <= i < findings@.len() && #[trigger] findings@[i].severity == Severity::Blocker) ==> (r
            == Verdict::Blocked || r == Verdict::SystemCritical),
        (r == Verdict::Safe || r == Verdict::SafeAfterAction) ==> forall|i: int|
            0 <= i < findings@.len() ==> #[trigger] findings@[i].severity != Severity::Blocker,
{
    proof {
        law_blocker_forbids_migration(findings@);
    }
    let mut i: usize = 0;
    while i < findings.len()
        invariant
            i <= findings.len(),
            forall|j: int| 0 <= j < i ==> findings@[j].gate@ != SYSTEM_CRITICAL_GATE@,
        decreases findings.len() - i,
    {
        if str_eq(findings[i].gate.as_str(), SYSTEM_CRITICAL_GATE) {
            return Verdict::SystemCritical;
        }
        i = i + 1;
    }
    if has_blocker(findings) {
        return Verdict::Blocked;
    }
    let mut k: usize = 0;
    while k < findings.len()
        invariant
            k <= findings.len(),
            forall|j: int| 0 <= j < findings@.len() ==> findings@[j].gate@ != SYSTEM_CRITICAL_GATE@,
            !any_blocker(findings@),
            forall|j: int| 0 <= j < k ==> findings@[j].severity != Severity::Warning,
        decreases findings.len() - k,
    {
        if findings[k].severity == Severity::Warning {
            return Verdict::SafeAfterAction;
        }
        k = k + 1;
    }
    Verdict::Safe
}

/// Strings in strictly increasing order.
pub open spec fn strings_strictly_sorted(s: Seq<String>) -> bool {
    forall|k: int| 0 <= k < s.len() - 1 ==> #[trigger] lex_lt(s[k]@, s[k + 1]@)
}

/// The texts of `v`, sorted, each once.
pub fn sorted_unique_strings(v: Vec<String>) -> (r: Vec<String>)
    ensures
        strings_strictly_sorted(r@),
        forall|k: int| 0 <= k < r@.len() ==> #[trigger] has_text(v@, r@[k]@),
        forall|j: int| 0 <= j < v@.len() ==> #[trigger] has_text(r@, v@[j]@),
{
    let ghost orig = v@;
    let mut src = v;
    let mut out: Vec<String> = Vec::new();
    while src.len() > 0
        invariant
            strings_strictly_sorted(out@),
            forall|k: int| 0 <= k < out@.len() ==> #[trigger] has_text(orig, out@[k]@),
            forall|k: int| 0 <= k < src@.len() ==> #[trigger] has_text(orig, src@[k]@),
            out@.len() > 0 ==> forall|k: int| 0 <= k < src@.len() ==> !#[trigger] lex_lt(src@[k]@, out@.last()@),
            forall|j: int| #![trigger orig[j]] 0 <= j < orig.len() ==> has_text(src@, orig[j]@) || has_text(out@, orig[j]@),
        decreases src.len(),
    {
        let mut m: usize = 0;
        let mut i: usize = 1;
        proof {
            lemma_lex_irreflexive(src@[0]@);
        }
        while i < src.len()
            invariant
                0 <= m < i <= src.len(),
                forall|j: int| 0 <= j < i ==> !#[trigger] lex_lt(src@[j]@, src@[m as int]@),
            decreases src.len() - i,
        {
            if str_less(src[i].as_str(), src[m].as_str()) {
                proof {
                    assert forall|j: int| 0 <= j < i + 1 implies !#[trigger] lex_lt(src@[j]@, src@[i as int]@) by {
                        if j < i && lex_lt(src@[j]@, src@[i as int]@) {
                            lemma_lex_transitive(src@[j]@, src@[i as int]@, src@[m as int]@);
                        }
                        if j == i {
                            lemma_lex_irreflexive(src@[j]@);
                        }
                    }
                }
                m = i;
            }
            i = i + 1;
        }
        let ghost before_src = src@;
        let ghost before_out = out@;
        let x = src.remove(m);
        proof {
            assert forall|k: int| 0 <= k < src@.len() implies !#[trigger] lex_lt(src@[k]@, x@) by {
                if k < m {
                    assert(src@[k] == before_src[k]);
                } else {
                    assert(src@[k] == before_src[k + 1]);
                }
            }
            assert forall|k: int| 0 <= k < src@.len() implies #[trigger] has_text(orig, src@[k]@) by {
                if k < m {
                    assert(src@[k] == before_src[k]);
                } else {
                    assert(src@[k] == before_src[k + 1]);
                }
            }
        }
        let keep = if out.len() == 0 {
            true
        } else {
            !str_eq(out[out.len() - 1].as_str(), x.as_str())
        };
        let ghost xv = x@;
        if keep {
            proof {
                if out@.len() > 0 {
                    lemma_lex_trichotomy(out@.last()@, x@);
                }
            }
            out.push(x);
            proof {
                assert forall|k: int| 0 <= k < out@.len() - 1 implies #[trigger] lex_lt(out@[k]@, out@[k + 1]@) by {
                    if k < out@.len() - 2 {
                        assert(out@[k] == before_out[k]);
                        assert(out@[k + 1] == before_out[k + 1]);
                    }
                }
                assert forall|k: int| 0 <= k < out@.len() implies #[trigger] has_text(orig, out@[k]@) by {
                    if k < out@.len() - 1 {
                        assert(out@[k] == before_out[k]);
                    } else {
                        assert(before_src[m as int] == out@[k]);
                        assert(has_text(orig, before_src[m as int]@));
                    }
                }
            }
        }
        proof {
            assert(out@.len() > 0 && out@.last()@ == xv);
            assert forall|j: int| #![trigger orig[j]] 0 <= j < orig.len() implies has_text(src@, orig[j]@) || has_text(out@, orig[j]@) by {
                if has_text(before_src, orig[j]@) {
                    let p = choose|p: int| 0 <= p < before_src.len() && (#[trigger] before_src[p])@ == orig[j]@;
                    if p < m {
                        assert(src@[p] == before_src[p]);
                        assert(has_text(src@, orig[j]@));
                    } else if p > m {
                        assert(src@[p - 1] == before_src[p]);
                        assert(has_text(src@, orig[j]@));
                    } else {
                        assert(out@[out@.len() - 1]@ == orig[j]@);
                        assert(has_text(out@, orig[j]@));
                    }
                } else {
                    assert(has_text(before_out, orig[j]@));
                    let k = choose|k: int| 0 <= k < before_out.len() && (#[trigger] before_out[k])@ == orig[j]@;
                    assert(out@[k] == before_out[k]);
                    assert(has_text(out@, orig[j]@));
                }
            }
        }
    }
    out
}

/// Whether a finding asks the user to close a program first: a warning of
/// the file-lock gate with a detail.
pub open spec fn is_lock_action(f: Finding) -> bool {
    f.severity == Severity::Warning && f.gate@ == FILE_LOCKS_GATE@ && f.detail is Some
}

/// Some file-lock warning of `f` asks for the action `t`.
pub open spec fn has_lock_action_text(f: Seq<Finding>, t: Seq<char>) -> bool {
    exists|j: int| 0 <= j < f.len() && is_lock_action(#[trigger] f[j]) && f[j].detail->0@ == t
}

/// The actions the file-lock warnings ask for, sorted, each once.
pub fn extract_actions(findings: &Vec<Finding>) -> (r: Vec<String>)
    ensures
        strings_strictly_sorted(r@),
        forall|k: int| 0 <= k < r@.len() ==> #[trigger] has_lock_action_text(findings@, r@[k]@),
        forall|j: int| 0 <= j < findings@.len() && is_lock_action(#[trigger] findings@[j]) ==> has_text(
            r@,
            findings@[j].detail->0@,
        ),
{
    let mut details: Vec<String> = Vec::new();
    let ghost mut src_of: Seq<int> = Seq::empty();
    let mut i: usize = 0;
    while i < findings.len()
        invariant
            i <= findings.len(),
            src_of.len() == details@.len(),
            forall|k: int| 0 <= k < details@.len() ==> 0 <= #[trigger] src_of[k] < findings@.len() && is_lock_action(
                findings@[src_of[k]],
            ) && findings@[src_of[k]].detail->0@ == details@[k]@,
            forall|j: int| 0 <= j < i && is_lock_action(#[trigger] findings@[j]) ==> has_text(
                details@,
                findings@[j].detail->0@,
            ),
        decreases findings.len() - i,
    {
        let f = &findings[i];
        if f.severity == Severity::Warning && str_eq(f.gate.as_str(), FILE_LOCKS_GATE) {
            match &f.detail {
                Some(d) => {
                    let ghost before = details@;
                    details.push(d.clone());
                    proof {
                        src_of = src_of.push(i as int);
                        assert(details@[details@.len() - 1]@ == findings@[i as int].detail->0@);
                        assert forall|j: int| 0 <= j < i + 1 && is_lock_action(#[trigger] findings@[j]) implies has_text(
                            details@,
                            findings@[j].detail->0@,
                        ) by {
                            if j < i {
                                let q = choose|q: int| 0 <= q < before.len() && (#[trigger] before[q])@ == findings@[j].detail->0@;
                                assert(details@[q] == before[q]);
                            } else {
                                assert(details@[details@.len() - 1]@ == findings@[j].detail->0@);
                            }
                        }
                    }
                },
                None => {},
            }
        }
        i = i + 1;
    }
    let ghost dv = details@;
    let r = sorted_unique_strings(details);
    proof {
        assert forall|k: int| 0 <= k < r@.len() implies #[trigger] has_lock_action_text(findings@, r@[k]@) by {
            assert(has_text(dv, r@[k]@));
            let q = choose|q: int| 0 <= q < dv.len() && (#[trigger] dv[q])@ == r@[k]@;
            assert(0 <= src_of[q] < findings@.len());
            assert(is_lock_action(findings@[src_of[q]]));
            assert(findings@[src_of[q]].detail->0@ == r@[k]@);
        }
        assert forall|j: int| 0 <= j < findings@.len() && is_lock_action(#[trigger] findings@[j]) implies has_text(
            r@,
            findings@[j].detail->0@,
        ) by {
            let q = choose|q: int| 0 <= q < dv.len() && dv[q]@ == findings@[j].detail->0@;
            assert(has_text(r@, dv[q]@));
        }
    }
    r
}

// ---------------------------------------------------------------------------
// Space on the target volume
// ---------------------------------------------------------------------------

/// Free space a migration needs on the target: nothing for an empty source,
/// the source itself below 64 MiB, else the source plus a reserve of one
/// percent kept between 64 MiB and 512 MiB (saturating).
pub open spec fn required_space(source_size: u64) -> int {
    if source_size == 0 {
        0
    } else if source_size < 67108864 {
        source_size as int
    } else {
        let pct = source_size / 100;
        let reserve = if pct < 67108864 { 67108864 } else if pct > 536870912 { 536870912 } else { pct as int };
        crate::tree::sat_u64(source_size + reserve)
    }
}

pub fn required_target_space(source_size: u64) -> (r: u64)
    ensures
        r == required_space(source_size),
        r >= source_size,
{
    if source_size == 0 {
        return 0;
    }
    if source_size < 67108864 {
        return source_size;
    }
    let pct = source_size / 100;
    let reserve: u64 = if pct < 67108864 {
        67108864
    } else if pct > 536870912 {
        536870912
    } else {
        pct
    };
    source_size.saturating_add(reserve)
}

// ---------------------------------------------------------------------------
// The system-critical gate
// ---------------------------------------------------------------------------

/// Paths (uppercased) whose contents Windows itself needs.
pub open spec fn critical_pattern(i: int) -> Seq<char> {
    if i == 0 {
        "C:\\WINDOWS\\SYSTEM32"@
    } else if i == 1 {
        "C:\\WINDOWS\\SYSWOW64"@
    } else if i == 2 {
        "C:\\WINDOWS\\WINSXS"@
    } else if i == 3 {
        "C:\\WINDOWS\\BOOT"@
    } else if i == 4 {
        "C:\\WINDOWS\\FONTS"@
    } else if i == 5 {
        "C:\\WINDOWS\\INF"@
    } else if i == 6 {
        "C:\\WINDOWS\\ASSEMBLY"@
    } else if i == 7 {
        "C:\\WINDOWS\\SERVICING"@
    } else if i == 8 {
        "C:\\WINDOWS\\LOGS"@
    } else if i == 9 {
        "C:\\WINDOWS\\SECURITY"@
    } else if i == 10 {
        "C:\\WINDOWS\\CURSORS"@
    } else if i == 11 {
        "C:\\WINDOWS\\GLOBALIZATION"@
    } else if i == 12 {
        "C:\\WINDOWS\\IMMERSIVECONTROLPANEL"@
    } else if i == 13 {
        "C:\\WINDOWS\\SYSTEMAPPS"@
    } else if i == 14 {
        "C:\\PROGRAM FILES\\WINDOWSAPPS"@
    } else if i == 15 {
        "C:\\PROGRAMDATA\\MICROSOFT\\WINDOWS\\START MENU"@
    } else if i == 16 {
        "C:\\PROGRAMDATA\\MICROSOFT\\CRYPTO"@
    } else if i == 17 {
        "C:\\PROGRAMDATA\\MICROSOFT\\WINDOWS DEFENDER"@
    } else if i == 18 {
        "C:\\SYSTEM VOLUME INFORMATION"@
    } else if i == 19 {
        "C:\\$RECYCLE.BIN"@
    } else if i == 20 {
        "C:\\RECOVERY"@
    } else if i == 21 {
        "C:\\BOOT"@
    } else if i == 22 {
        "\\APPDATA\\LOCAL\\MICROSOFT\\WINDOWS\\"@
    } else if i == 23 {
        "\\APPDATA\\ROAMING\\MICROSOFT\\WINDOWS\\"@
    } else if i == 24 {
        "\\APPDATA\\LOCAL\\PACKAGES\\"@
    } else if i == 25 {
        "\\APPDATA\\ROAMING\\MICROSOFT\\PROTECT\\"@
    } else if i == 26 {
        "\\APPDATA\\LOCAL\\MICROSOFT\\CREDENTIALS\\"@
    } else if i == 27 {
        "\\APPDATA\\LOCAL\\CONNECTEDDEVICESPLATFORM\\"@
    } else {
        Seq::empty()
    }
}

/// The number of critical paths.
pub const CRITICAL_PATH_COUNT: usize = 28;

fn critical_entry(i: usize) -> (r: (&'static str, &'static str))
    requires
        i < 28,
    ensures
        r.0@ == critical_pattern(i as int),
{
    if i == 0 {
        ("C:\\WINDOWS\\SYSTEM32", "Windows 系统核心目录")
    } else if i == 1 {
        ("C:\\WINDOWS\\SYSWOW64", "Windows 32 位兼容目录")
    } else if i == 2 {
        ("C:\\WINDOWS\\WINSXS", "Windows 组件存储")
    } else if i == 3 {
        ("C:\\WINDOWS\\BOOT", "Windows 引导目录")
    } else if i == 4 {
        ("C:\\WINDOWS\\FONTS", "Windows 字体目录")
    } else if i == 5 {
        ("C:\\WINDOWS\\INF", "Windows 驱动信息目录")
    } else if i == 6 {
        ("C:\\WINDOWS\\ASSEMBLY", "全局程序集缓存")
    } else if i == 7 {
        ("C:\\WINDOWS\\SERVICING", "Windows 更新服务")
    } else if i == 8 {
        ("C:\\WINDOWS\\LOGS", "Windows 系统日志")
    } else if i == 9 {
        ("C:\\WINDOWS\\SECURITY", "Windows 安全策略")
    } else if i == 10 {
        ("C:\\WINDOWS\\CURSORS", "系统光标资源")
    } else if i == 11 {
        ("C:\\WINDOWS\\GLOBALIZATION", "全球化数据")
    } else if i == 12 {
        ("C:\\WINDOWS\\IMMERSIVECONTROLPANEL", "系统设置面板")
    } else if i == 13 {
        ("C:\\WINDOWS\\SYSTEMAPPS", "系统内置应用")
    } else if i == 14 {
        ("C:\\PROGRAM FILES\\WINDOWSAPPS", "Windows 应用商店")
    } else if i == 15 {
        ("C:\\PROGRAMDATA\\MICROSOFT\\WINDOWS\\START MENU", "开始菜单")
    } else if i == 16 {
        ("C:\\PROGRAMDATA\\MICROSOFT\\CRYPTO", "系统加密存储")
    } else if i == 17 {
        ("C:\\PROGRAMDATA\\MICROSOFT\\WINDOWS DEFENDER", "Windows Defender")
    } else if i == 18 {
        ("C:\\SYSTEM VOLUME INFORMATION", "系统卷信息")
    } else if i == 19 {
        ("C:\\$RECYCLE.BIN", "回收站")
    } else if i == 20 {
        ("C:\\RECOVERY", "系统恢复分区")
    } else if i == 21 {
        ("C:\\BOOT", "引导加载器")
    } else if i == 22 {
        ("\\APPDATA\\LOCAL\\MICROSOFT\\WINDOWS\\", "Windows 用户系统数据")
    } else if i == 23 {
        ("\\APPDATA\\ROAMING\\MICROSOFT\\WINDOWS\\", "Windows 用户配置")
    } else if i == 24 {
        ("\\APPDATA\\LOCAL\\PACKAGES\\", "UWP 应用数据")
    } else if i == 25 {
        ("\\APPDATA\\ROAMING\\MICROSOFT\\PROTECT\\", "Windows 凭据保护")
    } else if i == 26 {
        ("\\APPDATA\\LOCAL\\MICROSOFT\\CREDENTIALS\\", "系统凭据")
    } else if i == 27 {
        ("\\APPDATA\\LOCAL\\CONNECTEDDEVICESPLATFORM\\", "设备平台数据")
    } else {
        ("", "")
    }
}

/// The uppercase form of a text, as `str::to_uppercase` gives it (Unicode
/// case mapping).
pub uninterp spec fn unicode_upper(s: Seq<char>) -> Seq<char>;

/// `str::to_uppercase`: the text with every character mapped to its
/// uppercase form under Unicode's rules. Claimed: the result is
/// [`unicode_upper`] of the argument, and for an all-ASCII text it is the
/// ASCII uppercase (ASCII letters map to ASCII capitals one for one, every
/// other ASCII character to itself).
#[verifier::external_body]
pub(crate) fn to_uppercase(s: &str) -> (r: String)
    ensures
        r@ == unicode_upper(s@),
        crate::text::all_ascii(s@) ==> r@ == crate::text::ascii_upper(s@),
{
    s.to_uppercase()
}

/// The roots that collect whole families of directories.
pub open spec fn is_collection_root_upper(t: Seq<char>) -> bool {
    t == "C:\\PROGRAM FILES"@ || t == "C:\\PROGRAM FILES (X86)"@ || t == "C:\\PROGRAMDATA"@ || t == "C:\\USERS"@
}

/// A directory inside the Windows folder other than its installer cache and
/// temporary folder.
pub open spec fn in_windows_folder(p: Seq<char>) -> bool {
    is_prefix_of("C:\\WINDOWS"@, p) && !is_prefix_of("C:\\WINDOWS\\INSTALLER"@, p) && !is_prefix_of(
        "C:\\WINDOWS\\TEMP"@,
        p,
    )
}

/// Whether a path (uppercased) must never be migrated: a collection root,
/// a folder of Windows itself, or a path containing a critical path.
pub open spec fn system_critical_hit(p: Seq<char>) -> bool {
    ||| is_collection_root_upper(trim_end_char(p, '\\'))
    ||| in_windows_folder(p)
    ||| exists|i: int| 0 <= i < CRITICAL_PATH_COUNT && contains_seq(p, #[trigger] critical_pattern(i))
}

fn blocker(message: String) -> (r: Finding)
    ensures
        r.gate@ == SYSTEM_CRITICAL_GATE@,
        r.severity == Severity::Blocker,
        r.detail is None,
{
    Finding { gate: owned(SYSTEM_CRITICAL_GATE), severity: Severity::Blocker, message, detail: None }
}

fn with_suffix(reason: &str, suffix: &str) -> (r: String)
    ensures
        r@ == reason@ + suffix@,
{
    let mut m = owned(reason);
    push_str(&mut m, suffix);
    m
}

/// The findings of the system-critical gate for a path (uppercased): one
/// blocker when the path must not move, none otherwise.
pub fn system_critical_findings(path_upper: &str) -> (r: Vec<Finding>)
    ensures
        r@.len() <= 1,
        r@.len() == 1 <==> system_critical_hit(path_upper@),
        forall|k: int| 0 <= k < r@.len() ==> (#[trigger] r@[k]).gate@ == SYSTEM_CRITICAL_GATE@ && r@[k].severity
            == Severity::Blocker && r@[k].detail is None,
{
    let mut out: Vec<Finding> = Vec::new();
    let normalized = trim_end_char_str(path_upper, '\\');
    let n = normalized.as_str();
    if str_eq(n, "C:\\PROGRAM FILES") {
        out.push(blocker(with_suffix("Program Files 是所有应用安装目录的集合根", "，请选择具体的子目录而不是整个集合")));
        return out;
    }
    if str_eq(n, "C:\\PROGRAM FILES (X86)") {
        out.push(blocker(with_suffix("Program Files (x86) 是所有 32 位应用安装目录的集合根", "，请选择具体的子目录而不是整个集合")));
        return out;
    }
    if str_eq(n, "C:\\PROGRAMDATA") {
        out.push(blocker(with_suffix("ProgramData 是所有应用共享数据的集合根", "，请选择具体的子目录而不是整个集合")));
        return out;
    }
    if str_eq(n, "C:\\USERS") {
        out.push(blocker(with_suffix("Users 是所有用户的集合根", "，请选择具体的子目录而不是整个集合")));
        return out;
    }
    if starts_with(path_upper, "C:\\WINDOWS") && !starts_with(path_upper, "C:\\WINDOWS\\INSTALLER") && !starts_with(
        path_upper,
        "C:\\WINDOWS\\TEMP",
    ) {
        let mut reason: &str = "Windows 系统目录";
        let mut i: usize = 0;
        while i < CRITICAL_PATH_COUNT
            invariant
                i <= CRITICAL_PATH_COUNT,
            decreases CRITICAL_PATH_COUNT - i,
        {
            let (pat, why) = critical_entry(i);
            if starts_with(path_upper, pat) {
                reason = why;
                break;
            }
            i = i + 1;
        }
        out.push(blocker(with_suffix(reason, "，禁止迁移")));
        return out;
    }
    let mut i: usize = 0;
    while i < CRITICAL_PATH_COUNT
        invariant
            i <= CRITICAL_PATH_COUNT,
            out@.len() == 0,
            forall|j: int| 0 <= j < i ==> !contains_seq(path_upper@, #[trigger] critical_pattern(j)),
        decreases CRITICAL_PATH_COUNT - i,
    {
        let (pat, why) = critical_entry(i);
        if contains(path_upper, pat) {
            out.push(blocker(with_suffix(why, "，禁止迁移")));
            return out;
        }
        i = i + 1;
    }
    out
}

/// What the file system shows of a directory that tells its kind of
/// application: a Steam app id file, an Epic store folder, a portable-app
/// marker.
pub struct AppMarkers {
    pub has_steam_appid: bool,
    pub has_egstore: bool,
    pub has_portable_marker: bool,
}

/// The kind of application a directory holds, from its path (uppercased)
/// and its markers: Steam and Epic games first, then portable apps, user
/// data and media under a user folder, temporary files, other games, else
/// unknown.
pub open spec fn app_type_text(m: AppMarkers, p: Seq<char>) -> Seq<char> {
    if m.has_steam_appid || contains_seq(p, "STEAMAPPS"@) || contains_seq(p, "STEAM\\COMMON"@) {
        "Steam 游戏"@
    } else if contains_seq(p, "EPIC GAMES"@) || m.has_egstore {
        "Epic 游戏"@
    } else if m.has_portable_marker {
        "便携式应用"@
    } else if contains_seq(p, "\\USERS\\"@) && (contains_seq(p, "\\DOWNLOADS"@) || contains_seq(p, "\\DOCUMENTS"@)
        || contains_seq(p, "\\DESKTOP"@)) {
        "用户数据"@
    } else if contains_seq(p, "\\USERS\\"@) && (contains_seq(p, "\\VIDEOS"@) || contains_seq(p, "\\PICTURES"@)
        || contains_seq(p, "\\MUSIC"@)) {
        "媒体文件"@
    } else if contains_seq(p, "\\TEMP"@) || contains_seq(p, "\\TMP"@) {
        "临时文件"@
    } else if contains_seq(p, "\\GAMES\\"@) || contains_seq(p, "\\GAME\\"@) {
        "游戏"@
    } else {
        "未知类型"@
    }
}

/// The kind of application a directory holds (see [`app_type_text`]).
pub fn identify_app_type(markers: &AppMarkers, path_upper: &str) -> (r: String)
    ensures
        r@ == app_type_text(*markers, path_upper@),
{
    if markers.has_steam_appid || contains(path_upper, "STEAMAPPS") || contains(path_upper, "STEAM\\COMMON") {
        return owned("Steam 游戏");
    }
    if contains(path_upper, "EPIC GAMES") || markers.has_egstore {
        return owned("Epic 游戏");
    }
    if markers.has_portable_marker {
        return owned("便携式应用");
    }
    if contains(path_upper, "\\USERS\\") {
        if contains(path_upper, "\\DOWNLOADS") || contains(path_upper, "\\DOCUMENTS") || contains(
            path_upper,
            "\\DESKTOP",
        ) {
            return owned("用户数据");
        }
        if contains(path_upper, "\\VIDEOS") || contains(path_upper, "\\PICTURES") || contains(
            path_upper,
            "\\MUSIC",
        ) {
            return owned("媒体文件");
        }
    }
    if contains(path_upper, "\\TEMP") || contains(path_upper, "\\TMP") {
        return owned("临时文件");
    }
    if contains(path_upper, "\\GAMES\\") || contains(path_upper, "\\GAME\\") {
        return owned("游戏");
    }
    owned("未知类型")
}

// ---------------------------------------------------------------------------
// The analysis
// ---------------------------------------------------------------------------

/// Whether a verdict allows the migration.
pub open spec fn verdict_allows(v: Verdict) -> bool {
    v == Verdict::Safe || v == Verdict::SafeAfterAction
}

/// The safety of migrating `path`: the system-critical gate runs first; the
/// other gates' findings (which the caller gathered for this path) count
/// only when it found no blocker. Findings are sorted and deduplicated; the
/// verdict, whether the migration may go ahead and the actions asked of the
/// user follow from them.
pub fn analyze(
    path: &str,
    markers: &AppMarkers,
    system_critical_ms: u64,
    gate_findings: Vec<Finding>,
    gate_durations: Vec<(String, u64)>,
    analysis_duration_ms: u64,
) -> (r: MigrationSafety)
    ensures
        r.verdict == verdict_of(r.findings@),
        r.can_migrate == verdict_allows(r.verdict),
        r.can_migrate <==> (r.verdict == Verdict::Safe || r.verdict == Verdict::SafeAfterAction),
        (exists|i: int| 0 <= i < r.findings@.len() && #[trigger] r.findings@[i].severity == Severity::Blocker) ==> !r.can_migrate
            && (r.verdict == Verdict::Blocked || r.verdict == Verdict::SystemCritical),
        findings_strictly_sorted(r.findings@),
        system_critical_hit(unicode_upper(path@)) ==> r.verdict == Verdict::SystemCritical && !r.can_migrate,
        system_critical_hit(unicode_upper(path@)) ==> r.findings@.len() == 1 && r.findings@[0].gate@
            == SYSTEM_CRITICAL_GATE@ && r.findings@[0].severity == Severity::Blocker && r.findings@[0].detail is None,
        crate::text::all_ascii(path@) ==> unicode_upper(path@) == crate::text::ascii_upper(path@),
        !system_critical_hit(unicode_upper(path@)) ==> forall|j: int| 0 <= j < gate_findings@.len() ==> #[trigger] has_alike(
            r.findings@,
            gate_findings@[j],
        ),
        !system_critical_hit(unicode_upper(path@)) ==> forall|k: int| 0 <= k < r.findings@.len() ==> gate_findings@.contains(
            #[trigger] r.findings@[k],
        ),
        strings_strictly_sorted(r.required_actions@),
        forall|k: int| 0 <= k < r.required_actions@.len() ==> #[trigger] has_lock_action_text(r.findings@, r.required_actions@[k]@),
        forall|j: int| 0 <= j < r.findings@.len() && is_lock_action(#[trigger] r.findings@[j]) ==> has_text(
            r.required_actions@,
            r.findings@[j].detail->0@,
        ),
{
    let path_upper = to_uppercase(path);
    let app_type = identify_app_type(markers, path_upper.as_str());
    let mut findings = system_critical_findings(path_upper.as_str());
    let mut durations: Vec<(String, u64)> = Vec::new();
    durations.push((owned(SYSTEM_CRITICAL_GATE), system_critical_ms));
    let hit = findings.len() > 0;
    let ghost sc = findings@;
    if !has_blocker(&findings) {
        findings = gate_findings;
        let mut extra = gate_durations;
        durations.append(&mut extra);
    }
    proof {
        if hit {
            assert(sc[0].severity == Severity::Blocker);
            assert(any_blocker(sc));
            assert(findings@ == sc);
        }
    }
    let ghost before = findings@;
    dedup_findings(&mut findings);
    proof {
        if hit {
            assert(has_alike(findings@, before[0]));
            let k = choose|k: int| 0 <= k < findings@.len() && #[trigger] same_finding(findings@[k], before[0]);
            assert(findings@[k].gate@ == SYSTEM_CRITICAL_GATE@);
            assert(before.len() == 1);
            assert(findings@.contains(findings@[0]) ==> before.contains(findings@[0]));
            assert(before.contains(findings@[0]));
            if findings@.len() >= 2 {
                assert(before.contains(findings@[1]));
                assert(findings@[0] == before[0]);
                assert(findings@[1] == before[0]);
                assert(findings_strictly_sorted(findings@));
                let z: int = 0;
                assert(finding_lt(findings@[z], findings@[z + 1]));
                assert(findings@[z + 1] == findings@[1]);
                lemma_lex_irreflexive(findings@[0].gate@);
                lemma_lex_irreflexive(findings@[0].message@);
                lemma_detail_order(detail_view(findings@[0].detail), detail_view(findings@[0].detail));
                assert(false);
            }
            assert(findings@[0] == before[0]);
        }
    }
    let verdict = derive_verdict(&findings);
    let can_migrate = verdict == Verdict::Safe || verdict == Verdict::SafeAfterAction;
    let required_actions = extract_actions(&findings);
    MigrationSafety {
        verdict,
        can_migrate,
        findings,
        required_actions,
        app_type,
        analysis_duration_ms,
        gate_durations_ms: durations,
    }
}

// ---------------------------------------------------------------------------
// Registry bindings
// ---------------------------------------------------------------------------

/// A Windows service whose image or parameters point into the file system.
pub struct RegistryServiceBinding {
    pub name: String,
    pub field: String,
    pub value: String,
    pub normalized_upper: String,
    pub start: u32,
    pub service_type: u32,
}

/// A registry entry that names one path.
pub struct RegistryPathBinding {
    pub display: String,
    pub field: String,
    pub normalized_upper: String,
}

/// A registry value holding free text that may mention paths.
pub struct RegistryBlobBinding {
    pub display: String,
    pub value_upper: String,
}

/// The registry entries that bind paths, as read from the registry.
pub struct RegistryIndex {
    pub services: Vec<RegistryServiceBinding>,
    pub com: Vec<RegistryPathBinding>,
    pub app_paths: Vec<RegistryPathBinding>,
    pub tasks: Vec<RegistryBlobBinding>,
    pub uninstall: Vec<RegistryPathBinding>,
}

/// The name of the registry gate.
pub const REGISTRY_GATE: &'static str = "registry_bindings";

/// `normalized` is the directory `dir_upper` itself or lies below it.
pub open spec fn path_is_under(normalized: Seq<char>, dir_upper: Seq<char>) -> bool {
    is_prefix_of(dir_upper, normalized) && (normalized.len() == dir_upper.len() || is_sep(
        normalized[dir_upper.len() as int],
    ))
}

pub fn normalized_path_is_under(normalized: &str, dir_upper: &str) -> (r: bool)
    ensures
        r == path_is_under(normalized@, dir_upper@),
{
    let n = chars_of(normalized);
    let d = chars_of(dir_upper);
    if n.len() < d.len() {
        return false;
    }
    if !starts_with(normalized, dir_upper) {
        return false;
    }
    if n.len() == d.len() {
        return true;
    }
    n[d.len()] == '\\' || n[d.len()] == '/'
}

/// Characters that may stand before a path inside a text value.
pub open spec fn blob_left_sep(c: char) -> bool {
    c == '\0' || c == '"' || c == ' ' || c == '\t' || c == '\n' || c == '\r'
}

/// Characters that may stand after a path inside a text value.
pub open spec fn blob_right_sep(c: char) -> bool {
    c == '\\' || c == '/' || blob_left_sep(c)
}

/// `dir_upper` occurs in `haystack` at `i` as a whole path: at the start or
/// after a separator, and at the end or before a separator.
pub open spec fn blob_path_at(haystack: Seq<char>, dir_upper: Seq<char>, i: int) -> bool {
    &&& occurs_at(haystack, dir_upper, i)
    &&& (i == 0 || blob_left_sep(haystack[i - 1]))
    &&& (i + dir_upper.len() >= haystack.len() || blob_right_sep(haystack[i + dir_upper.len()]))
}

/// Whether a text value mentions `dir_upper` as a whole path.
pub fn blob_contains_path_upper(haystack: &str, dir_upper: &str) -> (r: bool)
    ensures
        r == exists|i: int| blob_path_at(haystack@, dir_upper@, i),
{
    let h = chars_of(haystack);
    let d = chars_of(dir_upper);
    let mut i: usize = 0;
    while i < h.len()
        invariant
            i <= h.len(),
            h@ == haystack@,
            d@ == dir_upper@,
            forall|j: int| 0 <= j < i ==> !blob_path_at(haystack@, dir_upper@, j),
        decreases h.len() - i,
    {
        if crate::text::chars_occur_at(h.as_slice(), d.as_slice(), i) {
            let end = i + d.len();
            let left_ok = i == 0 || {
                let prev = h[i - 1];
                prev == '\0' || prev == '"' || prev == ' ' || prev == '\t' || prev == '\n' || prev == '\r'
            };
            let right_ok = end >= h.len() || {
                let next = h[end];
                next == '\\' || next == '/' || next == '\0' || next == '"' || next == ' ' || next == '\t'
                    || next == '\n' || next == '\r'
            };
            if left_ok && right_ok {
                assert(blob_path_at(haystack@, dir_upper@, i as int));
                return true;
            }
        }
        i = i + 1;
    }
    // an empty pattern also occurs at the very end
    if d.len() == 0 {
        let left_ok = i == 0 || {
            let prev = h[i - 1];
            prev == '\0' || prev == '"' || prev == ' ' || prev == '\t' || prev == '\n' || prev == '\r'
        };
        if left_ok {
            assert(haystack@.subrange(i as int, i as int) =~= dir_upper@);
            assert(blob_path_at(haystack@, dir_upper@, i as int));
            return true;
        }
    }
    proof {
        assert forall|j: int| !blob_path_at(haystack@, dir_upper@, j) by {
            if 0 <= j < i {
            } else if j >= i as int {
                if occurs_at(haystack@, dir_upper@, j) {
                    assert(j + dir_upper@.len() <= haystack@.len());
                }
            }
        }
    }
    false
}

/// The first `n` labels joined with ", ".
pub open spec fn joined_labels(labels: Seq<String>, n: int) -> Seq<char>
    decreases n,
{
    if n <= 0 {
        Seq::empty()
    } else if n == 1 {
        labels[0]@
    } else {
        joined_labels(labels, n - 1) + ", "@ + labels[n - 1]@
    }
}

/// Joins the first five labels with ", ".
fn first_five_joined(labels: &Vec<String>) -> (r: String)
    ensures
        r@ == joined_labels(labels@, if labels@.len() < 5 { labels@.len() as int } else { 5 }),
{
    let mut out = String::new();
    let mut i: usize = 0;
    while i < labels.len() && i < 5
        invariant
            i <= labels.len(),
            i <= 5,
            out@ == joined_labels(labels@, i as int),
        decreases labels.len() - i,
    {
        if i > 0 {
            push_str(&mut out, ", ");
        }
        push_str(&mut out, labels[i].as_str());
        i = i + 1;
    }
    out
}

/// `prefix`, the count, `suffix`.
fn counted_message(prefix: &str, count: usize, suffix: &str) -> (r: String)
    ensures
        r@ == prefix@ + decimal(count as nat) + suffix@,
{
    let mut m = owned(prefix);
    push_decimal(&mut m, count as u64);
    push_str(&mut m, suffix);
    m
}

/// `name (field)`.
fn labelled(name: &str, field: &str) -> (r: String)
    ensures
        r@ == name@ + " ("@ + field@ + seq![')'],
{
    let mut m = owned(name);
    push_str(&mut m, " (");
    push_str(&mut m, field);
    push_char(&mut m, ')');
    m
}

fn registry_finding(severity: Severity, message: String, labels: &Vec<String>) -> (r: Finding)
    ensures
        r.gate@ == REGISTRY_GATE@,
        r.severity == severity,
{
    Finding { gate: owned(REGISTRY_GATE), severity, message, detail: Some(first_five_joined(labels)) }
}

/// A service that starts by itself or on demand (start type up to 3) and
/// lives below the path.
pub open spec fn service_bound(s: RegistryServiceBinding, path_upper: Seq<char>) -> bool {
    s.start <= 3 && path_is_under(s.normalized_upper@, path_upper)
}

/// What would break when `path_upper` moves without a link left behind:
/// services and COM servers below it block; App Paths entries, scheduled
/// tasks and uninstall entries pointing below it call for care. With a link
/// left behind nothing breaks.
pub fn gate_registry_bindings(index: &RegistryIndex, path_upper: &str, link_mode_none: bool) -> (r: Vec<Finding>)
    ensures
        !link_mode_none ==> r@.len() == 0,
        forall|k: int| 0 <= k < r@.len() ==> (#[trigger] r@[k]).gate@ == REGISTRY_GATE@,
        any_blocker(r@) <==> link_mode_none && ((exists|i: int| 0 <= i < index.services@.len() && #[trigger] service_bound(
            index.services@[i],
            path_upper@,
        )) || (exists|i: int| 0 <= i < index.com@.len() && #[trigger] path_is_under(
            index.com@[i].normalized_upper@,
            path_upper@,
        ))),
{
    let mut findings: Vec<Finding> = Vec::new();
    if !link_mode_none {
        return findings;
    }
    let mut services: Vec<String> = Vec::new();
    let mut i: usize = 0;
    while i < index.services.len()
        invariant
            i <= index.services.len(),
            services@.len() == 0 <==> forall|j: int| 0 <= j < i ==> !#[trigger] service_bound(index.services@[j], path_upper@),
        decreases index.services.len() - i,
    {
        let e = &index.services[i];
        let bound = e.start <= 3 && normalized_path_is_under(e.normalized_upper.as_str(), path_upper);
        assert(bound == service_bound(index.services@[i as int], path_upper@));
        if bound {
            services.push(labelled(e.name.as_str(), e.field.as_str()));
        }
        i = i + 1;
    }
    if services.len() > 0 {
        findings.push(registry_finding(
            Severity::Blocker,
            counted_message("无链接模式下，", services.len(), " 个 Windows 服务的路径绑定将断裂"),
            &services,
        ));
    }
    let ghost after_services = findings@;
    let mut com: Vec<String> = Vec::new();
    let mut c: usize = 0;
    while c < index.com.len()
        invariant
            c <= index.com.len(),
            com@.len() == 0 <==> forall|j: int| 0 <= j < c ==> !#[trigger] path_is_under(
                index.com@[j].normalized_upper@,
                path_upper@,
            ),
        decreases index.com.len() - c,
    {
        let e = &index.com[c];
        let bound = normalized_path_is_under(e.normalized_upper.as_str(), path_upper);
        assert(bound == path_is_under(index.com@[c as int].normalized_upper@, path_upper@));
        if bound {
            com.push(labelled(e.display.as_str(), e.field.as_str()));
        }
        c = c + 1;
    }
    if com.len() > 0 {
        findings.push(registry_finding(
            Severity::Blocker,
            counted_message("无链接模式下，", com.len(), " 个 COM 组件的路径绑定将断裂"),
            &com,
        ));
    }
    let blockers = services.len() > 0 || com.len() > 0;
    let ghost before_warnings = findings@;
    assert(any_blocker(before_warnings) == blockers) by {
        if blockers {
            assert(before_warnings[0].severity == Severity::Blocker);
        }
    }
    let mut app_paths: Vec<String> = Vec::new();
    let mut a: usize = 0;
    while a < index.app_paths.len()
        decreases index.app_paths.len() - a,
    {
        let e = &index.app_paths[a];
        if normalized_path_is_under(e.normalized_upper.as_str(), path_upper) {
            app_paths.push(e.display.clone());
        }
        a = a + 1;
    }
    let mut warnings: Vec<Finding> = Vec::new();
    if app_paths.len() > 0 {
        warnings.push(registry_finding(
            Severity::Warning,
            counted_message("无链接模式下，", app_paths.len(), " 个 App Paths 注册项将断裂"),
            &app_paths,
        ));
    }
    let mut tasks: Vec<String> = Vec::new();
    let mut t: usize = 0;
    while t < index.tasks.len()
        decreases index.tasks.len() - t,
    {
        let e = &index.tasks[t];
        if blob_contains_path_upper(e.value_upper.as_str(), path_upper) {
            tasks.push(e.display.clone());
        }
        t = t + 1;
    }
    if tasks.len() > 0 {
        warnings.push(registry_finding(
            Severity::Warning,
            counted_message("无链接模式下，", tasks.len(), " 个计划任务的路径绑定将断裂"),
            &tasks,
        ));
    }
    let mut apps: Vec<String> = Vec::new();
    let mut u: usize = 0;
    while u < index.uninstall.len()
        decreases index.uninstall.len() - u,
    {
        let e = &index.uninstall[u];
        if normalized_path_is_under(e.normalized_upper.as_str(), path_upper) {
            apps.push(e.display.clone());
        }
        u = u + 1;
    }
    if apps.len() > 0 {
        warnings.push(registry_finding(
            Severity::Warning,
            counted_message("无链接模式下，", apps.len(), " 个已安装应用的注册表路径将断裂"),
            &apps,
        ));
    }
    let ghost wv = warnings@;
    assert(forall|k: int| 0 <= k < wv.len() ==> (#[trigger] wv[k]).severity == Severity::Warning && wv[k].gate@
        == REGISTRY_GATE@);
    findings.append(&mut warnings);
    proof {
        assert(findings@ == before_warnings + wv);
        if any_blocker(findings@) {
            let k = choose|k: int| 0 <= k < findings@.len() && #[trigger] findings@[k].severity == Severity::Blocker;
            if k >= before_warnings.len() {
                assert(findings@[k] == wv[k - before_warnings.len()]);
            } else {
                assert(findings@[k] == before_warnings[k]);
            }
        }
        if blockers {
            assert(findings@[0] == before_warnings[0]);
        }
    }
    findings
}

// ---------------------------------------------------------------------------
// Registry paths
// ---------------------------------------------------------------------------

/// Whether a character is whitespace in Unicode's sense (the White_Space
/// property), as `char::is_whitespace` tests it.
pub open spec fn is_unicode_space(c: char) -> bool {
    ||| ('\u{9}' <= c && c <= '\u{d}')
    ||| c == ' '
    ||| c == '\u{85}'
    ||| c == '\u{a0}'
    ||| c == '\u{1680}'
    ||| ('\u{2000}' <= c && c <= '\u{200a}')
    ||| c == '\u{2028}'
    ||| c == '\u{2029}'
    ||| c == '\u{202f}'
    ||| c == '\u{205f}'
    ||| c == '\u{3000}'
}

/// Whether a character is Unicode whitespace (see [`is_unicode_space`]).
pub fn is_space(c: char) -> (r: bool)
    ensures
        r == is_unicode_space(c),
{
    ('\u{9}' <= c && c <= '\u{d}') || c == ' ' || c == '\u{85}' || c == '\u{a0}' || c == '\u{1680}' || ('\u{2000}' <= c
        && c <= '\u{200a}') || c == '\u{2028}' || c == '\u{2029}' || c == '\u{202f}' || c == '\u{205f}' || c == '\u{3000}'
}

/// The text without its leading whitespace.
pub open spec fn trim_space_start(s: Seq<char>) -> Seq<char>
    decreases s.len(),
{
    if s.len() > 0 && is_unicode_space(s[0]) {
        trim_space_start(s.drop_first())
    } else {
        s
    }
}

/// The text without its trailing whitespace.
pub open spec fn trim_space_end(s: Seq<char>) -> Seq<char>
    decreases s.len(),
{
    if s.len() > 0 && is_unicode_space(s.last()) {
        trim_space_end(s.drop_last())
    } else {
        s
    }
}

/// The text with surrounding whitespace removed, as `str::trim` gives it.
pub open spec fn unicode_trim(s: Seq<char>) -> Seq<char> {
    trim_space_end(trim_space_start(s))
}

/// The text with surrounding whitespace removed (see [`unicode_trim`]).
pub fn trim_whitespace(s: &str) -> (r: String)
    ensures
        r@ == unicode_trim(s@),
{
    let v = chars_of(s);
    let mut a: usize = 0;
    assert(v@.skip(0) =~= v@);
    while a < v.len() && is_space(v[a])
        invariant
            a <= v@.len(),
            v@ == s@,
            trim_space_start(s@) == trim_space_start(v@.skip(a as int)),
        decreases v@.len() - a,
    {
        assert(v@.skip(a as int).drop_first() =~= v@.skip(a + 1));
        a = a + 1;
    }
    let ghost t = v@.skip(a as int);
    assert(trim_space_start(s@) == t);
    let mut b: usize = v.len();
    assert(t.take(t.len() as int) =~= t);
    while b > a && is_space(v[b - 1])
        invariant
            a <= b <= v@.len(),
            v@ == s@,
            t == v@.skip(a as int),
            trim_space_end(t) == trim_space_end(t.take(b - a)),
        decreases b,
    {
        assert(t.take(b - a).drop_last() =~= t.take(b - 1 - a));
        assert(t.take(b - a).last() == v@[b - 1]);
        b = b - 1;
    }
    assert(trim_space_end(t) == t.take(b - a));
    let mut out: Vec<char> = Vec::new();
    let mut k: usize = a;
    while k < b
        invariant
            a <= k <= b <= v@.len(),
            out@ == v@.subrange(a as int, k as int),
        decreases b - k,
    {
        out.push(v[k]);
        k = k + 1;
        assert(out@ =~= v@.subrange(a as int, k as int));
    }
    assert(out@ =~= t.take(b - a));
    string_from_chars(out.as_slice())
}

/// Windows environment variables in registry paths, expanded to their
/// usual values.
pub open spec fn expand_reg_variables(s: Seq<char>) -> Seq<char> {
    replace_all(replace_all(replace_all(replace_all(replace_all(replace_all(replace_all(replace_all(replace_all(replace_all(replace_all(replace_all(replace_all(replace_all(replace_all(replace_all(replace_all(replace_all(replace_all(replace_all(s, "%SystemRoot%"@, "C:\\Windows"@), "%SYSTEMROOT%"@, "C:\\Windows"@), "%systemroot%"@, "C:\\Windows"@), "%ProgramFiles%"@, "C:\\Program Files"@), "%PROGRAMFILES%"@, "C:\\Program Files"@), "%ProgramFiles(x86)%"@, "C:\\Program Files (x86)"@), "%PROGRAMFILES(X86)%"@, "C:\\Program Files (x86)"@), "%ProgramW6432%"@, "C:\\Program Files"@), "%PROGRAMW6432%"@, "C:\\Program Files"@), "%CommonProgramFiles%"@, "C:\\Program Files\\Common Files"@), "%COMMONPROGRAMFILES%"@, "C:\\Program Files\\Common Files"@), "%CommonProgramFiles(x86)%"@, "C:\\Program Files (x86)\\Common Files"@), "%COMMONPROGRAMFILES(X86)%"@, "C:\\Program Files (x86)\\Common Files"@), "%ProgramData%"@, "C:\\ProgramData"@), "%PROGRAMDATA%"@, "C:\\ProgramData"@), "%ALLUSERSPROFILE%"@, "C:\\ProgramData"@), "%SystemDrive%"@, "C:"@), "%SYSTEMDRIVE%"@, "C:"@), "%windir%"@, "C:\\Windows"@), "%WINDIR%"@, "C:\\Windows"@)
}

fn expand_reg_variables_str(s: &str) -> (r: String)
    ensures
        r@ == expand_reg_variables(s@),
{
    let mut t = owned(s);
    proof {
        reveal_strlit("%SystemRoot%");
    }
    t = replace_str(t.as_str(), "%SystemRoot%", "C:\\Windows");
    proof {
        reveal_strlit("%SYSTEMROOT%");
    }
    t = replace_str(t.as_str(), "%SYSTEMROOT%", "C:\\Windows");
    proof {
        reveal_strlit("%systemroot%");
    }
    t = replace_str(t.as_str(), "%systemroot%", "C:\\Windows");
    proof {
        reveal_strlit("%ProgramFiles%");
    }
    t = replace_str(t.as_str(), "%ProgramFiles%", "C:\\Program Files");
    proof {
        reveal_strlit("%PROGRAMFILES%");
    }
    t = replace_str(t.as_str(), "%PROGRAMFILES%", "C:\\Program Files");
    proof {
        reveal_strlit("%ProgramFiles(x86)%");
    }
    t = replace_str(t.as_str(), "%ProgramFiles(x86)%", "C:\\Program Files (x86)");
    proof {
        reveal_strlit("%PROGRAMFILES(X86)%");
    }
    t = replace_str(t.as_str(), "%PROGRAMFILES(X86)%", "C:\\Program Files (x86)");
    proof {
        reveal_strlit("%ProgramW6432%");
    }
    t = replace_str(t.as_str(), "%ProgramW6432%", "C:\\Program Files");
    proof {
        reveal_strlit("%PROGRAMW6432%");
    }
    t = replace_str(t.as_str(), "%PROGRAMW6432%", "C:\\Program Files");
    proof {
        reveal_strlit("%CommonProgramFiles%");
    }
    t = replace_str(t.as_str(), "%CommonProgramFiles%", "C:\\Program Files\\Common Files");
    proof {
        reveal_strlit("%COMMONPROGRAMFILES%");
    }
    t = replace_str(t.as_str(), "%COMMONPROGRAMFILES%", "C:\\Program Files\\Common Files");
    proof {
        reveal_strlit("%CommonProgramFiles(x86)%");
    }
    t = replace_str(t.as_str(), "%CommonProgramFiles(x86)%", "C:\\Program Files (x86)\\Common Files");
    proof {
        reveal_strlit("%COMMONPROGRAMFILES(X86)%");
    }
    t = replace_str(t.as_str(), "%COMMONPROGRAMFILES(X86)%", "C:\\Program Files (x86)\\Common Files");
    proof {
        reveal_strlit("%ProgramData%");
    }
    t = replace_str(t.as_str(), "%ProgramData%", "C:\\ProgramData");
    proof {
        reveal_strlit("%PROGRAMDATA%");
    }
    t = replace_str(t.as_str(), "%PROGRAMDATA%", "C:\\ProgramData");
    proof {
        reveal_strlit("%ALLUSERSPROFILE%");
    }
    t = replace_str(t.as_str(), "%ALLUSERSPROFILE%", "C:\\ProgramData");
    proof {
        reveal_strlit("%SystemDrive%");
    }
    t = replace_str(t.as_str(), "%SystemDrive%", "C:");
    proof {
        reveal_strlit("%SYSTEMDRIVE%");
    }
    t = replace_str(t.as_str(), "%SYSTEMDRIVE%", "C:");
    proof {
        reveal_strlit("%windir%");
    }
    t = replace_str(t.as_str(), "%windir%", "C:\\Windows");
    proof {
        reveal_strlit("%WINDIR%");
    }
    t = replace_str(t.as_str(), "%WINDIR%", "C:\\Windows");
    t
}

/// `s` without the prefix `p`, or `s` itself.
pub open spec fn without_prefix(s: Seq<char>, p: Seq<char>) -> Seq<char> {
    if is_prefix_of(p, s) { s.skip(p.len() as int) } else { s }
}

/// A path read from the registry in comparable form: blanks and quotes
/// around it removed, the `\??\` prefix dropped, `\SystemRoot\` and the
/// usual environment variables expanded, `/` read as `\`, and a bare
/// `system32\...` placed under `C:\Windows`.
pub open spec fn reg_path_spec(raw: Seq<char>) -> Seq<char> {
    let s1 = trim_end_char(trim_start_char(unicode_trim(raw), '"'), '"');
    let s2 = without_prefix(s1, "\\??\\"@);
    let s3 = if is_prefix_of("\\SystemRoot\\"@, s2) {
        "C:\\Windows\\"@ + s2.skip("\\SystemRoot\\"@.len() as int)
    } else {
        s2
    };
    let s4 = expand_reg_variables(replace_char(s3, '/', '\\'));
    if (is_prefix_of("system32\\"@, s4) || is_prefix_of("System32\\"@, s4) || is_prefix_of("SYSTEM32\\"@, s4))
        && !s4.contains(':') {
        "C:\\Windows\\"@ + s4
    } else {
        s4
    }
}

fn skip_chars(s: &str, n: usize) -> (r: String)
    requires
        n <= s@.len(),
    ensures
        r@ == s@.skip(n as int),
{
    let v = chars_of(s);
    let mut out: Vec<char> = Vec::new();
    let mut i = n;
    while i < v.len()
        invariant
            n <= i <= v.len(),
            v@ == s@,
            out@ == s@.subrange(n as int, i as int),
        decreases v.len() - i,
    {
        out.push(v[i]);
        i = i + 1;
        assert(out@ =~= s@.subrange(n as int, i as int));
    }
    assert(s@.skip(n as int) =~= s@.subrange(n as int, v.len() as int));
    string_from_chars(out.as_slice())
}

fn has_colon(s: &str) -> (r: bool)
    ensures
        r == s@.contains(':'),
{
    let v = chars_of(s);
    let mut i: usize = 0;
    while i < v.len()
        invariant
            i <= v.len(),
            v@ == s@,
            forall|j: int| 0 <= j < i ==> v@[j] != ':',
        decreases v.len() - i,
    {
        if v[i] == ':' {
            return true;
        }
        i = i + 1;
    }
    false
}

/// A path read from the registry in comparable form (see [`reg_path_spec`]).
pub fn normalize_reg_path(raw: &str) -> (r: String)
    ensures
        r@ == reg_path_spec(raw@),
{
    let trimmed = trim_whitespace(raw);
    let s1 = trim_matches_char(trimmed.as_str(), '"');
    proof {
        reveal_strlit("\\??\\");
        reveal_strlit("\\SystemRoot\\");
    }
    let s2 = if starts_with(s1.as_str(), "\\??\\") {
        skip_chars(s1.as_str(), 4)
    } else {
        s1
    };
    let s3 = if starts_with(s2.as_str(), "\\SystemRoot\\") {
        let mut t = owned("C:\\Windows\\");
        let rest = skip_chars(s2.as_str(), 12);
        push_str(&mut t, rest.as_str());
        t
    } else {
        s2
    };
    let s4a = replace_char_str(s3.as_str(), '/', '\\');
    let s4 = expand_reg_variables_str(s4a.as_str());
    if (starts_with(s4.as_str(), "system32\\") || starts_with(s4.as_str(), "System32\\") || starts_with(
        s4.as_str(),
        "SYSTEM32\\",
    )) && !has_colon(s4.as_str()) {
        let mut t = owned("C:\\Windows\\");
        push_str(&mut t, s4.as_str());
        t
    } else {
        s4
    }
}

// ---------------------------------------------------------------------------
// The target volume
// ---------------------------------------------------------------------------

/// The name of the target-volume gate.
pub const TARGET_VOLUME_GATE: &'static str = "target_volume";

/// Bytes in tenths of a GiB, rounded to the nearest tenth, ties to even (how
/// a byte count divided by 2^30 prints with one decimal).
pub open spec fn gib_tenths(bytes: u64) -> int {
    let num = bytes * 10;
    let q = num / 1073741824;
    let rem = num % 1073741824;
    if 2 * rem > 1073741824 || (2 * rem == 1073741824 && q % 2 == 1) {
        q + 1
    } else {
        q
    }
}

/// A byte count in GiB with one decimal.
pub open spec fn gib_text(bytes: u64) -> Seq<char> {
    let t = gib_tenths(bytes);
    decimal((t / 10) as nat) + seq!['.', digit_char((t % 10) as nat)]
}

pub fn push_gib(s: &mut String, bytes: u64)
    ensures
        final(s)@ == old(s)@ + gib_text(bytes),
{
    let num: u128 = (bytes as u128) * 10;
    let q: u128 = num / 1073741824;
    let rem: u128 = num % 1073741824;
    let t: u128 = if 2 * rem > 1073741824 || (2 * rem == 1073741824 && q % 2 == 1) {
        q + 1
    } else {
        q
    };
    assert(t == gib_tenths(bytes));
    assert(t / 10 <= u64::MAX) by (nonlinear_arith)
        requires
            t <= (bytes as u128) * 10 / 1073741824 + 1,
            bytes <= u64::MAX,
    ;
    let whole = (t / 10) as u64;
    let tenth = (t % 10) as u64;
    crate::text::push_decimal(s, whole);
    push_char(s, '.');
    let d = crate::text::decimal_string(tenth);
    proof {
        reveal_with_fuel(decimal, 1);
        assert(d@ == seq![digit_char(tenth as nat)]);
    }
    push_str(s, d.as_str());
    assert(final_text_eq(old(s)@, s@, bytes)) by {
        assert(s@ =~= old(s)@ + gib_text(bytes));
    }
}

spec fn final_text_eq(before: Seq<char>, after: Seq<char>, bytes: u64) -> bool {
    after == before + gib_text(bytes)
}

/// Whether two texts agree but for ASCII letter case.
fn eq_ignore_ascii_case(a: &str, b: &str) -> (r: bool)
    ensures
        r == (ascii_lower(a@) == ascii_lower(b@)),
{
    let la = to_ascii_lowercase(a);
    let lb = to_ascii_lowercase(b);
    str_eq(la.as_str(), lb.as_str())
}

/// What the target-volume gate finds, from what the target volume reports:
/// nothing without a target; a blocker when its file system is not NTFS
/// (letter case aside); a blocker when it has less free space than the
/// migration needs ([`required_space`]).
pub fn target_volume_findings(
    target_disk: Option<&str>,
    file_system: Option<&str>,
    free_bytes: Option<u64>,
    source_size: u64,
) -> (r: Vec<Finding>)
    ensures
        forall|k: int| 0 <= k < r@.len() ==> (#[trigger] r@[k]).gate@ == TARGET_VOLUME_GATE@ && r@[k].severity
            == Severity::Blocker,
        (target_disk is None || target_disk->0@.len() == 0) ==> r@.len() == 0,
        !(target_disk is None || target_disk->0@.len() == 0) ==> r@.len() == (if file_system matches Some(fs) && ascii_lower(
            fs@,
        ) != ascii_lower("NTFS"@) { 1int } else { 0 }) + (if free_bytes matches Some(f) && f < required_space(source_size) {
            1int
        } else {
            0
        }),
{
    let mut findings: Vec<Finding> = Vec::new();
    let target = match target_disk {
        Some(t) => {
            if chars_of(t).len() == 0 {
                return findings;
            }
            t
        },
        None => {
            return findings;
        },
    };
    match file_system {
        Some(fs) => {
            if !eq_ignore_ascii_case(fs, "NTFS") {
                let mut m = owned("目标卷文件系统为 ");
                push_str(&mut m, fs);
                push_str(&mut m, "，仅支持迁移到 NTFS 卷");
                findings.push(Finding {
                    gate: owned(TARGET_VOLUME_GATE),
                    severity: Severity::Blocker,
                    message: m,
                    detail: Some(owned("非 NTFS 卷无法保留 ACL、ADS、硬链接等 NTFS 语义特性，且 Junction 仅在 NTFS 上有效")),
                });
            }
        },
        None => {},
    }
    match free_bytes {
        Some(free) => {
            let required = required_target_space(source_size);
            if free < required {
                let mut m = owned("目标卷空间不足: 需要 ");
                push_gib(&mut m, required);
                push_str(&mut m, " GB，可用 ");
                push_gib(&mut m, free);
                push_str(&mut m, " GB");
                findings.push(Finding {
                    gate: owned(TARGET_VOLUME_GATE),
                    severity: Severity::Blocker,
                    message: m,
                    detail: None,
                });
            }
        },
        None => {},
    }
    let _ = target;
    findings
}

// ---------------------------------------------------------------------------
// The result cache
// ---------------------------------------------------------------------------

/// How long a cached analysis stays valid (milliseconds).
pub const SAFETY_CACHE_TTL_MS: u64 = 30000;

/// The cache is emptied when it holds this many results.
pub const SAFETY_CACHE_CAPACITY: usize = 64;

/// Recent analyses by key, each with the time it was made, so that asking
/// again soon after costs nothing.
pub struct SafetyCache {
    table: StringHashMap<(MigrationSafety, u64)>,
}

/// Whether an entry made at `inserted_ms` is still valid at `now_ms` (a
/// clock that went back counts as no time passed).
pub open spec fn entry_fresh(inserted_ms: u64, now_ms: u64) -> bool {
    (if now_ms >= inserted_ms { now_ms - inserted_ms } else { 0 }) < SAFETY_CACHE_TTL_MS
}

impl SafetyCache {
    /// The time each cached entry was made, by key.
    pub closed spec fn stamps(self) -> Map<Seq<char>, u64> {
        self.table@.map_values(|v: (MigrationSafety, u64)| v.1)
    }

    /// The cached analysis of each key, as plain values.
    pub closed spec fn results(self) -> Map<
        Seq<char>,
        (
            Verdict,
            bool,
            Seq<(Seq<char>, Severity, Seq<char>, Option<Seq<char>>)>,
            Seq<Seq<char>>,
            Seq<char>,
            u64,
            Seq<(Seq<char>, u64)>,
        ),
    > {
        self.table@.map_values(|v: (MigrationSafety, u64)| safety_view(v.0))
    }

    /// Finitely many entries, never more than the capacity.
    pub closed spec fn wf(self) -> bool {
        self.table@.dom().finite() && self.table@.len() <= SAFETY_CACHE_CAPACITY
    }

    /// Whether the cache holds a valid entry for `key` at `now_ms`.
    pub open spec fn hit(self, key: Seq<char>, now_ms: u64) -> bool {
        self.stamps().contains_key(key) && entry_fresh(self.stamps()[key], now_ms)
    }

    pub fn new() -> (r: SafetyCache)
        ensures
            r.wf(),
            r.stamps() == Map::<Seq<char>, u64>::empty(),
    {
        let r = SafetyCache { table: StringHashMap::new() };
        assert(r.table@.dom() =~= Set::<Seq<char>>::empty());
        assert(r.stamps() =~= Map::<Seq<char>, u64>::empty());
        r
    }

    /// The cached analysis for `key` when still valid at `now_ms`; an expired
    /// entry is dropped.
    pub fn get(&mut self, key: &str, now_ms: u64) -> (r: Option<MigrationSafety>)
        requires
            old(self).wf(),
        ensures
            final(self).wf(),
            r is Some <==> old(self).hit(key@, now_ms),
            r matches Some(m) ==> safety_view(m) == old(self).results()[key@],
            old(self).hit(key@, now_ms) || !old(self).stamps().contains_key(key@) ==> final(self).stamps()
                == old(self).stamps(),
            !old(self).hit(key@, now_ms) ==> final(self).stamps() == old(self).stamps().remove(key@),
    {
        let ghost t0 = self.table@;
        let found = match self.table.get(key) {
            Some(v) => {
                if now_ms.saturating_sub(v.1) < SAFETY_CACHE_TTL_MS {
                    Some(copy_safety(&v.0))
                } else {
                    None
                }
            },
            None => None,
        };
        match found {
            Some(m) => Some(m),
            None => {
                if self.table.contains_key(key) {
                    self.table.remove(key);
                    proof {
                        assert(self.stamps() =~= t0.map_values(|v: (MigrationSafety, u64)| v.1).remove(key@));
                        t0.lemma_remove_key_len(key@);
                    }
                } else {
                    proof {
                        assert(t0.map_values(|v: (MigrationSafety, u64)| v.1).remove(key@) =~= t0.map_values(
                            |v: (MigrationSafety, u64)| v.1,
                        ));
                    }
                }
                None
            },
        }
    }

    /// Caches an analysis under `key` as of `now_ms`, emptying the cache first
    /// when it is full.
    pub fn put(&mut self, key: String, result: MigrationSafety, now_ms: u64)
        requires
            old(self).wf(),
        ensures
            final(self).wf(),
            final(self).hit(key@, now_ms),
            final(self).stamps()[key@] == now_ms,
            final(self).results()[key@] == safety_view(result),
            old(self).stamps().len() < SAFETY_CACHE_CAPACITY ==> final(self).stamps() == old(self).stamps().insert(key@, now_ms),
    {
        let ghost k = key@;
        let ghost res = result;
        if self.table.len() >= SAFETY_CACHE_CAPACITY {
            self.table.clear();
            assert(self.table@.dom() =~= Set::<Seq<char>>::empty());
        }
        let ghost t1 = self.table@;
        self.table.insert(key, (result, now_ms));
        proof {
            assert(self.table@[k] == (res, now_ms));
            assert(self.stamps()[k] == now_ms);
            assert(self.results()[k] == safety_view(res));
            if t1.contains_key(k) {
                assert(self.table@.dom() =~= t1.dom());
            } else {
                assert(self.table@.dom() =~= t1.dom().insert(k));
            }
            assert(old(self).stamps().dom() =~= old(self).table@.dom());
            if old(self).stamps().len() < SAFETY_CACHE_CAPACITY {
                assert(self.stamps() =~= old(self).stamps().insert(k, now_ms));
            }
        }
    }

    /// Forgets every cached analysis.
    pub fn clear(&mut self)
        ensures
            final(self).wf(),
            final(self).stamps() == Map::<Seq<char>, u64>::empty(),
    {
        self.table.clear();
        assert(self.table@.dom() =~= Set::<Seq<char>>::empty());
        assert(self.stamps() =~= Map::<Seq<char>, u64>::empty());
    }
}

/// Forgets every cached analysis; to be called after a migration or a
/// rollback, when directories may have changed.
pub fn invalidate_safety_cache(cache: &mut SafetyCache)
    ensures
        final(cache).wf(),
        final(cache).stamps() == Map::<Seq<char>, u64>::empty(),
{
    cache.clear();
}

/// An analysis put into the cache is returned for the same key while it is
/// valid.
pub proof fn law_cache_returns_fresh_put(c: SafetyCache, key: Seq<char>, put_ms: u64, now_ms: u64)
    requires
        c.stamps().contains_key(key),
        c.stamps()[key] == put_ms,
        now_ms >= put_ms,
        now_ms - put_ms < SAFETY_CACHE_TTL_MS,
    ensures
        c.hit(key, now_ms),
{
}

/// The key an analysis is cached under: the path in upper case, the link
/// kind, the target disk (`-` for none) and the source size, separated by
/// `|`.
pub fn cache_key(path: &str, link_type_name: &str, target_disk: Option<&str>, source_size: u64) -> (r: String)
    ensures
        r@ == unicode_upper(path@) + seq!['|'] + link_type_name@ + seq!['|'] + match target_disk {
            Some(t) => t@,
            None => seq!['-'],
        } + seq!['|'] + decimal(source_size as nat),
{
    let mut k = to_uppercase(path);
    push_char(&mut k, '|');
    push_str(&mut k, link_type_name);
    push_char(&mut k, '|');
    match target_disk {
        Some(t) => push_str(&mut k, t),
        None => push_char(&mut k, '-'),
    }
    push_char(&mut k, '|');
    push_decimal(&mut k, source_size);
    assert(k@ =~= unicode_upper(path@) + seq!['|'] + link_type_name@ + seq!['|'] + match target_disk {
        Some(t) => t@,
        None => seq!['-'],
    } + seq!['|'] + decimal(source_size as nat));
    k
}

} // verus!
