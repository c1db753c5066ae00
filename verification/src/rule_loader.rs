//! Cleaning rules given as configuration: `%VAR%` expansion of their paths,
//! the paths each target resolves to, a depth cap for rules that would walk
//! a whole drive, and the rules a scan uses.
use vstd::prelude::*;
use crate::rules::{env_lookup, env_var, texts, JunkCategory, JunkRiskLevel, JunkRule};
use crate::safety::{trim_whitespace, unicode_trim};
use crate::text::{
    chars_of, owned, push_char, push_str, string_from_chars, trim_end_seps, trim_end_seps_str, trim_start_seps,
    trim_start_seps_str,
};

verus! {

/// A rule as configuration gives it.
pub struct CleanRuleConfig {
    pub id: String,
    pub app_id: String,
    pub detect: Vec<String>,
    pub category: JsonCategory,
    pub name: String,
    pub description: String,
    pub targets: Vec<TargetConfig>,
    pub risk: JsonRisk,
    pub requires_admin: bool,
    pub default_selected: bool,
    pub clean_subdirs_only: bool,
    /// A cap on the depth walked when patterns are used.
    pub max_depth: Option<u32>,
    /// Why removing the rule's files is harmless.
    pub why_safe: Option<String>,
}

/// Where a configured rule cleans: a base directory, optionally some of its
/// subdirectories, optionally file-name patterns.
pub struct TargetConfig {
    pub base: String,
    pub subdirs: Option<Vec<String>>,
    pub patterns: Option<Vec<String>>,
}

/// The categories configuration may name.
#[derive(Debug, Clone, Copy, PartialEq, Eq, Structural)]
pub enum JsonCategory {
    SystemTemp,
    BrowserCache,
    WindowsUpdate,
    ThumbnailCache,
    RecycleBin,
    CrashDump,
    AppLogs,
    FontCache,
    AppCache,
    DevCache,
    InstallerCache,
}

/// The risks configuration may name.
#[derive(Debug, Clone, Copy, PartialEq, Eq, Structural)]
pub enum JsonRisk {
    Safe,
    Caution,
    Risky,
}

/// The category a configured category stands for: installer caches count
/// as temporary files, application and developer caches as browser caches.
pub open spec fn junk_category_of(c: JsonCategory) -> JunkCategory {
    match c {
        JsonCategory::SystemTemp | JsonCategory::InstallerCache => JunkCategory::SystemTemp,
        JsonCategory::BrowserCache | JsonCategory::AppCache | JsonCategory::DevCache => JunkCategory::BrowserCache,
        JsonCategory::WindowsUpdate => JunkCategory::WindowsUpdate,
        JsonCategory::ThumbnailCache => JunkCategory::ThumbnailCache,
        JsonCategory::RecycleBin => JunkCategory::RecycleBin,
        JsonCategory::CrashDump => JunkCategory::CrashDump,
        JsonCategory::AppLogs => JunkCategory::AppLogs,
        JsonCategory::FontCache => JunkCategory::FontCache,
    }
}

pub open spec fn junk_risk_of(r: JsonRisk) -> JunkRiskLevel {
    match r {
        JsonRisk::Safe => JunkRiskLevel::Safe,
        JsonRisk::Caution => JunkRiskLevel::Caution,
        JsonRisk::Risky => JunkRiskLevel::Risky,
    }
}

/// A configured risk loads as the same level: safe as safe, caution as
/// caution, risky as risky, so two different configured levels never load
/// as one.
pub proof fn law_risk_kept(a: JsonRisk, b: JsonRisk)
    ensures
        junk_risk_of(JsonRisk::Safe) == JunkRiskLevel::Safe,
        junk_risk_of(JsonRisk::Caution) == JunkRiskLevel::Caution,
        junk_risk_of(JsonRisk::Risky) == JunkRiskLevel::Risky,
        a != b ==> junk_risk_of(a) != junk_risk_of(b),
{
}

/// A rule prepared from a configuration, and the rule loaded from it, keep
/// the configured risk level.
pub proof fn law_prepared_rule_keeps_risk(p: PreparedRule, cfg: CleanRuleConfig, env: Seq<(String, String)>, r: JunkRule)
    requires
        prepared_from(p, cfg, env),
    ensures
        cfg.risk == JsonRisk::Safe ==> p.risk_level == JunkRiskLevel::Safe,
        cfg.risk == JsonRisk::Caution ==> p.risk_level == JunkRiskLevel::Caution,
        cfg.risk == JsonRisk::Risky ==> p.risk_level == JunkRiskLevel::Risky,
        rule_from_prepared(r, p) ==> (cfg.risk == JsonRisk::Risky ==> r.risk_level == JunkRiskLevel::Risky) && (cfg.risk
            == JsonRisk::Caution ==> r.risk_level == JunkRiskLevel::Caution) && (cfg.risk == JsonRisk::Safe
            ==> r.risk_level == JunkRiskLevel::Safe),
{
}

impl JsonCategory {
    pub fn to_junk_category(self) -> (r: JunkCategory)
        ensures
            r == junk_category_of(self),
    {
        match self {
            JsonCategory::SystemTemp | JsonCategory::InstallerCache => JunkCategory::SystemTemp,
            JsonCategory::BrowserCache | JsonCategory::AppCache | JsonCategory::DevCache => JunkCategory::BrowserCache,
            JsonCategory::WindowsUpdate => JunkCategory::WindowsUpdate,
            JsonCategory::ThumbnailCache => JunkCategory::ThumbnailCache,
            JsonCategory::RecycleBin => JunkCategory::RecycleBin,
            JsonCategory::CrashDump => JunkCategory::CrashDump,
            JsonCategory::AppLogs => JunkCategory::AppLogs,
            JsonCategory::FontCache => JunkCategory::FontCache,
        }
    }
}

impl JsonRisk {
    pub fn to_junk_risk(self) -> (r: JunkRiskLevel)
        ensures
            r == junk_risk_of(self),
            self == JsonRisk::Safe ==> r == JunkRiskLevel::Safe,
            self == JsonRisk::Caution ==> r == JunkRiskLevel::Caution,
            self == JsonRisk::Risky ==> r == JunkRiskLevel::Risky,
    {
        match self {
            JsonRisk::Safe => JunkRiskLevel::Safe,
            JsonRisk::Caution => JunkRiskLevel::Caution,
            JsonRisk::Risky => JunkRiskLevel::Risky,
        }
    }
}

// ---------------------------------------------------------------------------
// %VAR% expansion
// ---------------------------------------------------------------------------

/// The first position from `i` on holding `%` (the length when none does).
pub open spec fn first_percent(v: Seq<char>, i: int) -> int
    decreases v.len() - i,
{
    if i >= v.len() {
        v.len() as int
    } else if v[i] == '%' {
        i
    } else {
        first_percent(v, i + 1)
    }
}

pub proof fn lemma_first_percent(v: Seq<char>, i: int)
    requires
        0 <= i,
    ensures
        i <= first_percent(v, i) || (i > v.len() && first_percent(v, i) == v.len()),
        first_percent(v, i) <= v.len() || i > v.len(),
        first_percent(v, i) < v.len() ==> v[first_percent(v, i)] == '%',
        forall|k: int| i <= k < first_percent(v, i) ==> v[k] != '%',
    decreases v.len() - i,
{
    if i < v.len() && v[i] != '%' {
        lemma_first_percent(v, i + 1);
    }
}

/// `p` put before an optional text.
pub open spec fn prepend(p: Seq<char>, o: Option<Seq<char>>) -> Option<Seq<char>> {
    match o {
        Some(r) => Some(p + r),
        None => None,
    }
}

/// The text from position `i` on with every `%NAME%` replaced by the value
/// of the variable (trimmed of whitespace and trailing separators); none
/// when a `%` is not closed, a name is empty, or a variable is unset or
/// empty after trimming.
pub open spec fn expand_from(v: Seq<char>, i: int, env: Seq<(String, String)>) -> Option<Seq<char>>
    decreases v.len() - i,
{
    if i < 0 || i >= v.len() {
        Some(Seq::empty())
    } else if v[i] != '%' {
        prepend(seq![v[i]], expand_from(v, i + 1, env))
    } else {
        let close = first_percent(v, i + 1);
        proof {
            lemma_first_percent(v, i + 1);
        }
        if close >= v.len() || close == i + 1 {
            None
        } else {
            match env_lookup(env, v.subrange(i + 1, close)) {
                None => None,
                Some(raw) => {
                    let val = trim_end_seps(unicode_trim(raw));
                    if val.len() == 0 {
                        None
                    } else {
                        prepend(val, expand_from(v, close + 1, env))
                    }
                },
            }
        }
    }
}

/// A text with its `%NAME%` placeholders expanded (see [`expand_from`]).
pub open spec fn expand_vars(v: Seq<char>, env: Seq<(String, String)>) -> Option<Seq<char>> {
    expand_from(v, 0, env)
}

/// A text with its `%NAME%` placeholders expanded (see [`expand_vars`]).
pub fn expand_env_vars(input: &str, env: &Vec<(String, String)>) -> (r: Option<String>)
    ensures
        r matches Some(s) ==> expand_vars(input@, env@) == Some(s@),
        r is None ==> expand_vars(input@, env@) is None,
{
    let v = chars_of(input);
    let mut out: Vec<char> = Vec::new();
    let mut i: usize = 0;
    while i < v.len()
        invariant
            i <= v@.len(),
            v@ == input@,
            expand_from(v@, 0, env@) == prepend(out@, expand_from(v@, i as int, env@)),
        decreases v@.len() - i,
    {
        if v[i] != '%' {
            let ghost rest = expand_from(v@, i + 1, env@);
            out.push(v[i]);
            proof {
                match rest {
                    Some(r) => {
                        assert(out@ + r =~= out@.drop_last() + (seq![v@[i as int]] + r));
                    },
                    None => {},
                }
            }
            i = i + 1;
        } else {
            let mut close: usize = i + 1;
            while close < v.len() && v[close] != '%'
                invariant
                    i < close <= v@.len(),
                    v@[i as int] == '%',
                    first_percent(v@, i + 1) == first_percent(v@, close as int),
                decreases v@.len() - close,
            {
                close = close + 1;
            }
            proof {
                lemma_first_percent(v@, i + 1);
            }
            if close >= v.len() || close == i + 1 {
                return None;
            }
            let mut name: Vec<char> = Vec::new();
            let mut k: usize = i + 1;
            while k < close
                invariant
                    i + 1 <= k <= close <= v@.len(),
                    name@ == v@.subrange(i + 1, k as int),
                decreases close - k,
            {
                name.push(v[k]);
                k = k + 1;
                assert(name@ =~= v@.subrange(i + 1, k as int));
            }
            let name_str = string_from_chars(name.as_slice());
            let raw = match env_var(env, name_str.as_str()) {
                Some(x) => x,
                None => {
                    return None;
                },
            };
            let trimmed = trim_whitespace(raw);
            let val = trim_end_seps_str(trimmed.as_str());
            let val_chars = chars_of(val.as_str());
            if val_chars.len() == 0 {
                return None;
            }
            let ghost rest = expand_from(v@, close + 1, env@);
            let ghost out0 = out@;
            let mut q: usize = 0;
            while q < val_chars.len()
                invariant
                    q <= val_chars@.len(),
                    out@ == out0 + val_chars@.take(q as int),
                decreases val_chars@.len() - q,
            {
                out.push(val_chars[q]);
                q = q + 1;
                assert(out@ =~= out0 + val_chars@.take(q as int));
            }
            proof {
                assert(val_chars@.take(val_chars@.len() as int) =~= val_chars@);
                match rest {
                    Some(r) => {
                        assert(out@ + r =~= out0 + (val@ + r));
                    },
                    None => {},
                }
            }
            i = close + 1;
        }
    }
    assert(out@ + Seq::<char>::empty() =~= out@);
    Some(string_from_chars(out.as_slice()))
}

// ---------------------------------------------------------------------------
// Targets and the depth cap
// ---------------------------------------------------------------------------

/// The paths a target resolves to: nothing when its base does not expand,
/// each listed subdirectory below the base when there are any, else the
/// base itself.
pub open spec fn resolved_target(t: TargetConfig, env: Seq<(String, String)>) -> Seq<Seq<char>> {
    match expand_vars(t.base@, env) {
        None => Seq::empty(),
        Some(base) => {
            if t.subdirs is Some && t.subdirs->0@.len() > 0 {
                Seq::new(
                    t.subdirs->0@.len(),
                    |k: int| base.push('\\') + trim_start_seps(t.subdirs->0@[k]@),
                )
            } else {
                seq![base]
            }
        },
    }
}

/// The paths a target resolves to (see [`resolved_target`]).
pub fn resolve_target(target: &TargetConfig, env: &Vec<(String, String)>) -> (r: Vec<String>)
    ensures
        texts(r@) == resolved_target(*target, env@),
{
    let base = match expand_env_vars(target.base.as_str(), env) {
        Some(b) => b,
        None => {
            let r: Vec<String> = Vec::new();
            assert(texts(r@) =~= resolved_target(*target, env@));
            return r;
        },
    };
    let mut out: Vec<String> = Vec::new();
    match &target.subdirs {
        Some(subdirs) => {
            if subdirs.len() > 0 {
                let mut k: usize = 0;
                while k < subdirs.len()
                    invariant
                        k <= subdirs@.len(),
                        texts(out@) == Seq::new(k as nat, |j: int| base@.push('\\') + trim_start_seps(subdirs@[j]@)),
                    decreases subdirs@.len() - k,
                {
                    let mut p = base.clone();
                    push_char(&mut p, '\\');
                    let sub = trim_start_seps_str(subdirs[k].as_str());
                    push_str(&mut p, sub.as_str());
                    let ghost o = out@;
                    let ghost pv = p@;
                    out.push(p);
                    assert(texts(out@) =~= texts(o).push(pv));
                    k = k + 1;
                    assert(texts(out@) =~= Seq::new(k as nat, |j: int| base@.push('\\') + trim_start_seps(subdirs@[j]@)));
                }
                return out;
            }
        },
        None => {},
    }
    out.push(base);
    assert(texts(out@) =~= resolved_target(*target, env@));
    out
}

/// Depth cap given to a rule that would otherwise walk a whole drive with
/// its patterns.
pub const DRIVE_ROOT_DEFAULT_MAX_DEPTH: u32 = 2;

/// A drive root once trailing separators are dropped: an ASCII letter and
/// `:`.
pub open spec fn is_drive_root_spec(p: Seq<char>) -> bool {
    let t = trim_end_seps(p);
    t.len() == 2 && (('A' <= t[0] && t[0] <= 'Z') || ('a' <= t[0] && t[0] <= 'z')) && t[1] == ':'
}

/// Whether a path is a drive root (see [`is_drive_root_spec`]).
pub fn is_drive_root(path: &str) -> (r: bool)
    ensures
        r == is_drive_root_spec(path@),
{
    let t = trim_end_seps_str(path);
    let v = chars_of(t.as_str());
    v.len() == 2 && (('A' <= v[0] && v[0] <= 'Z') || ('a' <= v[0] && v[0] <= 'z')) && v[1] == ':'
}

/// The depth cap of a rule: the configured one; else, when the rule uses
/// patterns and one of its paths is a drive root, the default cap; else
/// none.
pub open spec fn effective_depth(paths: Seq<Seq<char>>, patterns_count: nat, explicit: Option<u32>) -> Option<u32> {
    if explicit is Some {
        explicit
    } else if patterns_count == 0 {
        None
    } else if exists|i: int| 0 <= i < paths.len() && is_drive_root_spec(#[trigger] paths[i]) {
        Some(DRIVE_ROOT_DEFAULT_MAX_DEPTH)
    } else {
        None
    }
}

/// The depth cap of a rule (see [`effective_depth`]).
pub fn effective_max_depth(rule_id: &str, paths: &Vec<String>, patterns_count: usize, explicit: Option<u32>) -> (r:
    Option<u32>)
    ensures
        r == effective_depth(texts(paths@), patterns_count as nat, explicit),
{
    if explicit.is_some() {
        return explicit;
    }
    if patterns_count == 0 {
        return None;
    }
    let mut i: usize = 0;
    while i < paths.len()
        invariant
            i <= paths@.len(),
            forall|j: int| 0 <= j < i ==> !is_drive_root_spec(#[trigger] texts(paths@)[j]),
            explicit is None,
            patterns_count != 0,
        decreases paths@.len() - i,
    {
        if is_drive_root(paths[i].as_str()) {
            assert(is_drive_root_spec(texts(paths@)[i as int]));
            assert(explicit is None && patterns_count as nat != 0);
            assert(exists|j: int| 0 <= j < texts(paths@).len() && is_drive_root_spec(#[trigger] texts(paths@)[j]));
            return Some(DRIVE_ROOT_DEFAULT_MAX_DEPTH);
        }
        i = i + 1;
    }
    None
}

// ---------------------------------------------------------------------------
// Prepared rules
// ---------------------------------------------------------------------------

/// A configured rule with its paths resolved.
pub struct PreparedRule {
    pub id: String,
    pub name: String,
    pub description: String,
    pub category: JunkCategory,
    pub risk_level: JunkRiskLevel,
    pub requires_admin: bool,
    pub default_selected: bool,
    pub clean_subdirs_only: bool,
    pub max_depth: Option<u32>,
    pub why_safe: Option<String>,
    /// The paths whose existence shows that the rule's application is
    /// installed.
    pub detect_paths: Vec<String>,
    pub target_paths: Vec<String>,
    pub patterns: Vec<String>,
}

/// The paths of the first `n` targets, in order.
pub open spec fn target_paths_upto(ts: Seq<TargetConfig>, env: Seq<(String, String)>, n: int) -> Seq<Seq<char>>
    decreases n,
{
    if n <= 0 {
        Seq::empty()
    } else {
        target_paths_upto(ts, env, n - 1) + resolved_target(ts[n - 1], env)
    }
}

/// The patterns of the first `n` targets, in order.
pub open spec fn patterns_upto(ts: Seq<TargetConfig>, n: int) -> Seq<Seq<char>>
    decreases n,
{
    if n <= 0 {
        Seq::empty()
    } else if ts[n - 1].patterns is Some {
        patterns_upto(ts, n - 1) + texts(ts[n - 1].patterns->0@)
    } else {
        patterns_upto(ts, n - 1)
    }
}

/// The detect paths among the first `n` that expand, expanded.
pub open spec fn detect_upto(ds: Seq<String>, env: Seq<(String, String)>, n: int) -> Seq<Seq<char>>
    decreases n,
{
    if n <= 0 {
        Seq::empty()
    } else {
        match expand_vars(ds[n - 1]@, env) {
            Some(p) => detect_upto(ds, env, n - 1).push(p),
            None => detect_upto(ds, env, n - 1),
        }
    }
}

/// A configured explanation is kept when it is not blank.
pub open spec fn kept_why(w: Option<String>) -> Option<Seq<char>> {
    match w {
        Some(s) => if unicode_trim(s@).len() > 0 { Some(s@) } else { None },
        None => None,
    }
}

pub open spec fn opt_text(o: Option<String>) -> Option<Seq<char>> {
    match o {
        Some(s) => Some(s@),
        None => None,
    }
}

/// A prepared rule made from a configured one.
pub open spec fn prepared_from(p: PreparedRule, cfg: CleanRuleConfig, env: Seq<(String, String)>) -> bool {
    let ts = cfg.targets@;
    let paths = target_paths_upto(ts, env, ts.len() as int);
    let pats = patterns_upto(ts, ts.len() as int);
    &&& p.id@ == cfg.id@
    &&& p.name@ == cfg.name@
    &&& p.description@ == cfg.description@
    &&& p.category == junk_category_of(cfg.category)
    &&& p.risk_level == junk_risk_of(cfg.risk)
    &&& p.requires_admin == cfg.requires_admin
    &&& p.default_selected == cfg.default_selected
    &&& p.clean_subdirs_only == cfg.clean_subdirs_only
    &&& texts(p.target_paths@) == paths
    &&& texts(p.detect_paths@) == detect_upto(cfg.detect@, env, cfg.detect@.len() as int)
    &&& texts(p.patterns@) == pats
    &&& p.max_depth == effective_depth(paths, pats.len(), cfg.max_depth)
    &&& opt_text(p.why_safe) == kept_why(cfg.why_safe)
}

fn append_strings(out: &mut Vec<String>, more: Vec<String>)
    ensures
        texts(final(out)@) == texts(old(out)@) + texts(more@),
{
    let ghost start = texts(out@);
    let mut rest = more;
    let ghost all = texts(rest@);
    let mut k: usize = 0;
    let n = rest.len();
    while rest.len() > 0
        invariant
            k + rest@.len() == n,
            n == all.len(),
            texts(out@) == start + all.take(k as int),
            forall|q: int| 0 <= q < rest@.len() ==> (#[trigger] rest@[q])@ == all[k + q],
        decreases rest@.len(),
    {
        let ghost r0 = rest@;
        let s = rest.remove(0);
        assert(s@ == all[k as int]);
        assert(forall|q: int| 0 <= q < rest@.len() ==> rest@[q] == r0[q + 1]);
        let ghost o = out@;
        let ghost sv = s@;
        out.push(s);
        assert(texts(out@) =~= texts(o).push(sv));
        k = k + 1;
        assert(texts(out@) =~= start + all.take(k as int));
    }
    assert(all.take(n as int) =~= all);
}

fn copy_strings(v: &Vec<String>) -> (r: Vec<String>)
    ensures
        texts(r@) == texts(v@),
{
    let mut out: Vec<String> = Vec::new();
    let mut k: usize = 0;
    while k < v.len()
        invariant
            k <= v@.len(),
            texts(out@) == texts(v@).take(k as int),
        decreases v@.len() - k,
    {
        let ghost o = out@;
        let c = v[k].clone();
        assert(c@ == v@[k as int]@);
        out.push(c);
        assert(texts(out@) =~= texts(o).push(v@[k as int]@));
        k = k + 1;
        assert(texts(out@) =~= texts(v@).take(k as int));
    }
    assert(texts(v@).take(v@.len() as int) =~= texts(v@));
    out
}

/// A configured rule with its paths resolved; none when no target resolves
/// to a path.
pub fn prepare_rule(cfg: &CleanRuleConfig, env: &Vec<(String, String)>) -> (r: Option<PreparedRule>)
    ensures
        r is None <==> target_paths_upto(cfg.targets@, env@, cfg.targets@.len() as int).len() == 0,
        r matches Some(p) ==> prepared_from(p, *cfg, env@),
{
    let ts = &cfg.targets;
    let mut target_paths: Vec<String> = Vec::new();
    let mut patterns: Vec<String> = Vec::new();
    let mut k: usize = 0;
    while k < ts.len()
        invariant
            k <= ts@.len(),
            texts(target_paths@) == target_paths_upto(ts@, env@, k as int),
            texts(patterns@) == patterns_upto(ts@, k as int),
        decreases ts@.len() - k,
    {
        let resolved = resolve_target(&ts[k], env);
        append_strings(&mut target_paths, resolved);
        match &ts[k].patterns {
            Some(ps) => {
                let copied = copy_strings(ps);
                append_strings(&mut patterns, copied);
            },
            None => {},
        }
        k = k + 1;
    }
    if target_paths.len() == 0 {
        return None;
    }
    let mut detect_paths: Vec<String> = Vec::new();
    let mut d: usize = 0;
    while d < cfg.detect.len()
        invariant
            d <= cfg.detect@.len(),
            texts(detect_paths@) == detect_upto(cfg.detect@, env@, d as int),
        decreases cfg.detect@.len() - d,
    {
        match expand_env_vars(cfg.detect[d].as_str(), env) {
            Some(p) => {
                detect_paths.push(p);
                assert(texts(detect_paths@) =~= detect_upto(cfg.detect@, env@, d + 1));
            },
            None => {},
        }
        d = d + 1;
    }
    let max_depth = effective_max_depth(cfg.id.as_str(), &target_paths, patterns.len(), cfg.max_depth);
    let why_safe = match &cfg.why_safe {
        Some(w) => {
            let t = trim_whitespace(w.as_str());
            if chars_of(t.as_str()).len() > 0 {
                Some(w.clone())
            } else {
                None
            }
        },
        None => None,
    };
    Some(PreparedRule {
        id: cfg.id.clone(),
        name: cfg.name.clone(),
        description: cfg.description.clone(),
        category: cfg.category.to_junk_category(),
        risk_level: cfg.risk.to_junk_risk(),
        requires_admin: cfg.requires_admin,
        default_selected: cfg.default_selected,
        clean_subdirs_only: cfg.clean_subdirs_only,
        max_depth,
        why_safe,
        detect_paths,
        target_paths,
        patterns,
    })
}

/// The configured rules that resolve to some path, in order, each
/// prepared.
pub open spec fn prepared_upto(cfgs: Seq<CleanRuleConfig>, env: Seq<(String, String)>, n: int) -> Seq<int>
    decreases n,
{
    if n <= 0 {
        Seq::empty()
    } else if target_paths_upto(cfgs[n - 1].targets@, env, cfgs[n - 1].targets@.len() as int).len() > 0 {
        prepared_upto(cfgs, env, n - 1).push(n - 1)
    } else {
        prepared_upto(cfgs, env, n - 1)
    }
}

/// Every configured rule that resolves to some path, prepared, in order
/// (see [`prepared_upto`]).
pub fn prepare_all_rules(configs: &Vec<CleanRuleConfig>, env: &Vec<(String, String)>) -> (r: Vec<PreparedRule>)
    ensures
        r@.len() == prepared_upto(configs@, env@, configs@.len() as int).len(),
        forall|k: int| 0 <= k < r@.len() ==> #[trigger] prepared_from(
            r@[k],
            configs@[prepared_upto(configs@, env@, configs@.len() as int)[k]],
            env@,
        ),
{
    let mut out: Vec<PreparedRule> = Vec::new();
    let mut i: usize = 0;
    while i < configs.len()
        invariant
            i <= configs@.len(),
            out@.len() == prepared_upto(configs@, env@, i as int).len(),
            forall|k: int| 0 <= k < out@.len() ==> #[trigger] prepared_from(
                out@[k],
                configs@[prepared_upto(configs@, env@, i as int)[k]],
                env@,
            ),
        decreases configs@.len() - i,
    {
        match prepare_rule(&configs[i], env) {
            Some(p) => {
                out.push(p);
            },
            None => {},
        }
        i = i + 1;
    }
    out
}

/// The rule a scan uses for a prepared rule.
pub open spec fn rule_from_prepared(r: JunkRule, p: PreparedRule) -> bool {
    &&& r.id@ == p.id@
    &&& r.category == p.category
    &&& r.name@ == p.name@
    &&& r.description@ == p.description@
    &&& texts(r.paths@) == texts(p.target_paths@)
    &&& texts(r.patterns@) == texts(p.patterns@)
    &&& r.risk_level == p.risk_level
    &&& r.requires_admin == p.requires_admin
    &&& r.default_selected == p.default_selected
    &&& r.clean_subdirs_only == p.clean_subdirs_only
    &&& r.max_depth == p.max_depth
    &&& opt_text(r.why_safe) == opt_text(p.why_safe)
}

/// The positions of the active prepared rules among the first `n`.
pub open spec fn active_upto(active: Seq<bool>, n: int) -> Seq<int>
    decreases n,
{
    if n <= 0 {
        Seq::empty()
    } else if active[n - 1] {
        active_upto(active, n - 1).push(n - 1)
    } else {
        active_upto(active, n - 1)
    }
}

/// The rules a scan uses: one for each prepared rule whose application was
/// detected (`active[i]`: some detect path of rule `i` exists), in order.
pub fn load_json_rules(prepared: &Vec<PreparedRule>, active: &Vec<bool>) -> (r: Vec<JunkRule>)
    requires
        active@.len() == prepared@.len(),
    ensures
        r@.len() == active_upto(active@, active@.len() as int).len(),
        forall|k: int| 0 <= k < r@.len() ==> #[trigger] rule_from_prepared(
            r@[k],
            prepared@[active_upto(active@, active@.len() as int)[k]],
        ),
{
    let mut out: Vec<JunkRule> = Vec::new();
    let mut i: usize = 0;
    while i < prepared.len()
        invariant
            i <= prepared@.len(),
            active@.len() == prepared@.len(),
            out@.len() == active_upto(active@, i as int).len(),
            forall|k: int| 0 <= k < out@.len() ==> #[trigger] rule_from_prepared(
                out@[k],
                prepared@[active_upto(active@, i as int)[k]],
            ),
        decreases prepared@.len() - i,
    {
        if active[i] {
            let p = &prepared[i];
            out.push(JunkRule {
                id: p.id.clone(),
                category: p.category,
                name: p.name.clone(),
                description: p.description.clone(),
                paths: copy_strings(&p.target_paths),
                patterns: copy_strings(&p.patterns),
                risk_level: p.risk_level,
                requires_admin: p.requires_admin,
                default_selected: p.default_selected,
                clean_subdirs_only: p.clean_subdirs_only,
                max_depth: p.max_depth,
                why_safe: crate::file_info::copy_opt_string(&p.why_safe),
            });
        }
        i = i + 1;
    }
    out
}

} // verus!
