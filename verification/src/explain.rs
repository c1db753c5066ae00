//! One-sentence explanations of paths: fixed texts for the system paths of
//! a volume, then a table of rules matched by substring, prefix or suffix.
use vstd::prelude::*;
use aho_corasick::AhoCorasick;
use crate::text::{
    chars_of, contains, contains_seq, ends_with, is_prefix_of, is_suffix_of, owned, replace_char, replace_char_str,
    starts_with, str_eq, string_from_chars, to_ascii_lowercase, trim_end_char, trim_end_char_str, ascii_lower,
};

verus! {

#[verifier::external_type_specification]
#[verifier::external_body]
pub struct ExAhoCorasick(aho_corasick::AhoCorasick);

/// The patterns a multi-pattern automaton was built from, in order.
pub uninterp spec fn automaton_patterns(ac: AhoCorasick) -> Seq<Seq<char>>;

/// Whether the automaton builder accepts these patterns (it refuses, for
/// instance, a set too large for its state identifiers).
pub uninterp spec fn automaton_builds(patterns: Seq<Seq<char>>) -> bool;

/// The texts of a list of strings.
pub open spec fn string_views(s: Seq<String>) -> Seq<Seq<char>> {
    Seq::new(s.len(), |i: int| s[i]@)
}

/// `AhoCorasick::builder().match_kind(MatchKind::Standard).build(patterns)`:
/// an automaton over the patterns in order, or none when the builder
/// reports an error. Whether it reports one depends on the patterns alone
/// (named [`automaton_builds`]); which patterns it refuses is not stated.
#[verifier::external_body]
fn build_automaton(patterns: &Vec<String>) -> (r: Option<AhoCorasick>)
    ensures
        r is Some <==> automaton_builds(string_views(patterns@)),
        r matches Some(ac) ==> automaton_patterns(ac) == string_views(patterns@),
{
    match AhoCorasick::builder().match_kind(aho_corasick::MatchKind::Standard).build(patterns) {
        Ok(ac) => Some(ac),
        Err(_) => None,
    }
}

/// `AhoCorasick::try_find_overlapping_iter`: the index of the pattern of
/// every match at every position of `haystack`. Claimed: each reported index
/// names a pattern that occurs in the haystack, and every pattern that
/// occurs is reported; none when the search reports an error.
#[verifier::external_body]
fn overlapping_matches(ac: &AhoCorasick, haystack: &str) -> (r: Option<Vec<usize>>)
    ensures
        r matches Some(v) ==> (forall|i: int| 0 <= i < v@.len() ==> (#[trigger] v@[i]) < automaton_patterns(*ac).len()
            && contains_seq(haystack@, automaton_patterns(*ac)[v@[i] as int])) && (forall|p: int|
            0 <= p < automaton_patterns(*ac).len() && #[trigger] contains_seq(haystack@, automaton_patterns(*ac)[p])
                ==> v@.contains(p as usize)),
{
    match ac.try_find_overlapping_iter(haystack) {
        Ok(it) => Some(it.map(|m| m.pattern().as_usize()).collect()),
        Err(_) => None,
    }
}

/// The patterns of the substring rules, in rule order.
pub open spec fn contains_patterns(rules: Seq<ExplainRule>) -> Seq<Seq<char>>
    decreases rules.len(),
{
    if rules.len() == 0 {
        Seq::empty()
    } else {
        let before = contains_patterns(rules.drop_last());
        if rules.last().match_mode == MatchMode::Contains {
            before.push(rules.last().pattern@)
        } else {
            before
        }
    }
}

/// How a rule's pattern is matched against a lowercased path.
#[derive(Debug, Clone, Copy, PartialEq, Eq, Structural)]
pub enum MatchMode {
    Contains,
    EndsWith,
    StartsWith,
}

/// One explanation rule.
pub struct ExplainRule {
    pub pattern: String,
    pub match_mode: MatchMode,
    pub explanation: String,
    pub app_name: Option<String>,
    pub safe_to_delete: bool,
    pub will_regenerate: bool,
}

/// The explanation of one path.
pub struct FileExplanation {
    pub path: String,
    pub explanation: String,
    pub app_name: Option<String>,
    pub safe_to_delete: bool,
    pub will_regenerate: bool,
}

/// Whether a rule matches a lowercased path.
pub open spec fn rule_matches(r: ExplainRule, pl: Seq<char>) -> bool {
    match r.match_mode {
        MatchMode::Contains => contains_seq(pl, r.pattern@),
        MatchMode::EndsWith => is_suffix_of(r.pattern@, pl),
        MatchMode::StartsWith => is_prefix_of(r.pattern@, pl),
    }
}

/// Rule `i` has the mode `mode` and matches.
pub open spec fn rule_hit(rules: Seq<ExplainRule>, pl: Seq<char>, mode: MatchMode, i: int) -> bool {
    0 <= i < rules.len() && rules[i].match_mode == mode && rule_matches(rules[i], pl)
}

/// The first rule from `i` on with the mode `mode` that matches.
pub open spec fn first_rule(rules: Seq<ExplainRule>, pl: Seq<char>, mode: MatchMode, i: int) -> Option<int>
    decreases rules.len() - i,
{
    if i < 0 || i >= rules.len() {
        None
    } else if rule_hit(rules, pl, mode, i) {
        Some(i)
    } else {
        first_rule(rules, pl, mode, i + 1)
    }
}

proof fn lemma_first_rule_least(rules: Seq<ExplainRule>, pl: Seq<char>, mode: MatchMode, i: int, k: int)
    requires
        0 <= i <= k,
        rule_hit(rules, pl, mode, k),
        forall|j: int| i <= j < k ==> !#[trigger] rule_hit(rules, pl, mode, j),
    ensures
        first_rule(rules, pl, mode, i) == Some(k),
    decreases k - i,
{
    if i < k {
        lemma_first_rule_least(rules, pl, mode, i + 1, k);
    }
}

proof fn lemma_first_rule_none(rules: Seq<ExplainRule>, pl: Seq<char>, mode: MatchMode, i: int)
    requires
        0 <= i,
        forall|j: int| i <= j < rules.len() ==> !#[trigger] rule_hit(rules, pl, mode, j),
    ensures
        first_rule(rules, pl, mode, i) is None,
    decreases rules.len() - i,
{
    if i < rules.len() {
        lemma_first_rule_none(rules, pl, mode, i + 1);
    }
}

/// The rule that explains a lowercased path: the first substring rule that
/// matches, else the first prefix rule, else the first suffix rule.
pub open spec fn rule_choice(rules: Seq<ExplainRule>, pl: Seq<char>) -> Option<int> {
    match first_rule(rules, pl, MatchMode::Contains, 0) {
        Some(i) => Some(i),
        None => match first_rule(rules, pl, MatchMode::StartsWith, 0) {
            Some(i) => Some(i),
            None => first_rule(rules, pl, MatchMode::EndsWith, 0),
        },
    }
}

/// Rules, with an automaton over the substring rules for a fast first match.
pub struct ExplainEngine {
    rules: Vec<ExplainRule>,
    automaton: AhoCorasick,
    ac_to_rule: Vec<usize>,
}

impl ExplainEngine {
    /// The automaton's pattern `k` is the pattern of substring rule
    /// `ac_to_rule[k]`, and every substring rule has its pattern.
    pub closed spec fn wf(self) -> bool {
        &&& automaton_patterns(self.automaton).len() == self.ac_to_rule@.len()
        &&& forall|k: int| 0 <= k < self.ac_to_rule@.len() ==> (#[trigger] self.ac_to_rule@[k]) < self.rules@.len()
            && self.rules@[self.ac_to_rule@[k] as int].match_mode == MatchMode::Contains && automaton_patterns(
            self.automaton,
        )[k] == self.rules@[self.ac_to_rule@[k] as int].pattern@
        &&& forall|i: int| 0 <= i < self.rules@.len() && (#[trigger] self.rules@[i]).match_mode == MatchMode::Contains
            ==> exists|k: int| 0 <= k < self.ac_to_rule@.len() && self.ac_to_rule@[k] == i
    }

    pub closed spec fn rules_view(self) -> Seq<ExplainRule> {
        self.rules@
    }

    /// An engine over the rules, in their order; none exactly when the
    /// automaton over the substring rules' patterns cannot be built.
    pub fn new(rules: Vec<ExplainRule>) -> (r: Option<ExplainEngine>)
        ensures
            r is Some <==> automaton_builds(contains_patterns(rules@)),
            r matches Some(e) ==> e.wf() && e.rules_view() == rules@,
    {
        let mut patterns: Vec<String> = Vec::new();
        let mut ac_to_rule: Vec<usize> = Vec::new();
        let mut i: usize = 0;
        while i < rules.len()
            invariant
                i <= rules.len(),
                patterns@.len() == ac_to_rule@.len(),
                string_views(patterns@) == contains_patterns(rules@.take(i as int)),
                forall|k: int| 0 <= k < ac_to_rule@.len() ==> (#[trigger] ac_to_rule@[k]) < i && rules@[ac_to_rule@[k] as int].match_mode
                    == MatchMode::Contains && patterns@[k]@ == rules@[ac_to_rule@[k] as int].pattern@,
                forall|j: int| 0 <= j < i && (#[trigger] rules@[j]).match_mode == MatchMode::Contains ==> exists|k: int|
                    0 <= k < ac_to_rule@.len() && ac_to_rule@[k] == j,
            decreases rules.len() - i,
        {
            let ghost pv = patterns@;
            proof {
                assert(rules@.take(i + 1).drop_last() =~= rules@.take(i as int));
            }
            if rules[i].match_mode == MatchMode::Contains {
                let ghost before = ac_to_rule@;
                patterns.push(rules[i].pattern.clone());
                assert(string_views(patterns@) =~= string_views(pv).push(rules@[i as int].pattern@));
                ac_to_rule.push(i);
                proof {
                    assert forall|j: int| 0 <= j < i + 1 && (#[trigger] rules@[j]).match_mode == MatchMode::Contains implies exists|k: int|
                        0 <= k < ac_to_rule@.len() && ac_to_rule@[k] == j by {
                        if j < i {
                            let k = choose|k: int| 0 <= k < before.len() && before[k] == j;
                            assert(ac_to_rule@[k] == j);
                        } else {
                            assert(ac_to_rule@[ac_to_rule@.len() - 1] == j);
                        }
                    }
                }
            }
            i = i + 1;
        }
        assert(rules@.take(rules.len() as int) =~= rules@);
        match build_automaton(&patterns) {
            Some(automaton) => {
                let e = ExplainEngine { rules, automaton, ac_to_rule };
                proof {
                    assert forall|k: int| 0 <= k < e.ac_to_rule@.len() implies automaton_patterns(e.automaton)[k]
                        == e.rules@[e.ac_to_rule@[k] as int].pattern@ by {
                        assert(string_views(patterns@)[k] == patterns@[k]@);
                    }
                }
                Some(e)
            },
            None => None,
        }
    }

    /// The first substring rule that matches, by scanning the rules.
    fn first_contains_linear(&self, path_lower: &str) -> (r: Option<usize>)
        ensures
            r matches Some(i) ==> first_rule(self.rules@, path_lower@, MatchMode::Contains, 0) == Some(i as int),
            r is None ==> first_rule(self.rules@, path_lower@, MatchMode::Contains, 0) is None,
    {
        let mut i: usize = 0;
        while i < self.rules.len()
            invariant
                i <= self.rules.len(),
                forall|j: int| 0 <= j < i ==> !#[trigger] rule_hit(self.rules@, path_lower@, MatchMode::Contains, j),
            decreases self.rules.len() - i,
        {
            if self.rules[i].match_mode == MatchMode::Contains && contains(path_lower, self.rules[i].pattern.as_str()) {
                proof {
                    lemma_first_rule_least(self.rules@, path_lower@, MatchMode::Contains, 0, i as int);
                }
                return Some(i);
            }
            i = i + 1;
        }
        proof {
            lemma_first_rule_none(self.rules@, path_lower@, MatchMode::Contains, 0);
        }
        None
    }

    /// The first substring rule that matches, through the automaton.
    fn first_contains(&self, path_lower: &str) -> (r: Option<usize>)
        requires
            self.wf(),
        ensures
            r matches Some(i) ==> first_rule(self.rules@, path_lower@, MatchMode::Contains, 0) == Some(i as int),
            r is None ==> first_rule(self.rules@, path_lower@, MatchMode::Contains, 0) is None,
    {
        let found = match overlapping_matches(&self.automaton, path_lower) {
            Some(v) => v,
            None => {
                return self.first_contains_linear(path_lower);
            },
        };
        let ghost pats = automaton_patterns(self.automaton);
        let mut best: Option<usize> = None;
        let mut q: usize = 0;
        while q < found.len()
            invariant
                q <= found.len(),
                self.wf(),
                pats == automaton_patterns(self.automaton),
                forall|i: int| 0 <= i < found@.len() ==> (#[trigger] found@[i]) < pats.len() && contains_seq(
                    path_lower@,
                    pats[found@[i] as int],
                ),
                best matches Some(b) ==> rule_hit(self.rules@, path_lower@, MatchMode::Contains, b as int),
                forall|i: int| 0 <= i < q ==> (best matches Some(b) && b <= #[trigger] self.ac_to_rule@[found@[i] as int]),
            decreases found.len() - q,
        {
            let p = found[q];
            let rule_idx = self.ac_to_rule[p];
            proof {
                assert(self.ac_to_rule@[p as int] < self.rules@.len());
                assert(rule_hit(self.rules@, path_lower@, MatchMode::Contains, rule_idx as int));
            }
            match best {
                None => {
                    best = Some(rule_idx);
                },
                Some(current) => {
                    if rule_idx < current {
                        best = Some(rule_idx);
                    }
                },
            }
            q = q + 1;
        }
        proof {
            assert forall|j: int| 0 <= j < self.rules@.len() && #[trigger] rule_hit(self.rules@, path_lower@, MatchMode::Contains, j)
                implies (best matches Some(b) && b <= j) by {
                let k = choose|k: int| 0 <= k < self.ac_to_rule@.len() && self.ac_to_rule@[k] == j;
                assert(pats[k] == self.rules@[j].pattern@);
                assert(contains_seq(path_lower@, pats[k]));
                assert(self.ac_to_rule@.len() == self.ac_to_rule.len());
                let ku: usize = k as usize;
                assert(found@.contains(ku));
                let i = choose|i: int| 0 <= i < found@.len() && found@[i] == ku;
                assert(found@[i] as int == k);
                assert(self.ac_to_rule@[found@[i] as int] == j);
            }
            match best {
                Some(b) => {
                    lemma_first_rule_least(self.rules@, path_lower@, MatchMode::Contains, 0, b as int);
                },
                None => {
                    lemma_first_rule_none(self.rules@, path_lower@, MatchMode::Contains, 0);
                },
            }
        }
        best
    }

    /// The first rule of the given mode (prefix or suffix) that matches.
    fn first_of_mode(&self, path_lower: &str, mode: MatchMode) -> (r: Option<usize>)
        requires
            mode != MatchMode::Contains,
        ensures
            r matches Some(i) ==> first_rule(self.rules@, path_lower@, mode, 0) == Some(i as int),
            r is None ==> first_rule(self.rules@, path_lower@, mode, 0) is None,
    {
        let mut i: usize = 0;
        while i < self.rules.len()
            invariant
                i <= self.rules.len(),
                mode != MatchMode::Contains,
                forall|j: int| 0 <= j < i ==> !#[trigger] rule_hit(self.rules@, path_lower@, mode, j),
            decreases self.rules.len() - i,
        {
            let rule = &self.rules[i];
            let hit = rule.match_mode == mode && match mode {
                MatchMode::StartsWith => starts_with(path_lower, rule.pattern.as_str()),
                _ => ends_with(path_lower, rule.pattern.as_str()),
            };
            if hit {
                proof {
                    lemma_first_rule_least(self.rules@, path_lower@, mode, 0, i as int);
                }
                return Some(i);
            }
            i = i + 1;
        }
        proof {
            lemma_first_rule_none(self.rules@, path_lower@, mode, 0);
        }
        None
    }

    /// The rule that explains a lowercased path (see [`rule_choice`]).
    pub fn choose_rule(&self, path_lower: &str) -> (r: Option<usize>)
        requires
            self.wf(),
        ensures
            r matches Some(i) ==> rule_choice(self.rules_view(), path_lower@) == Some(i as int) && i < self.rules_view().len(),
            r is None ==> rule_choice(self.rules_view(), path_lower@) is None,
    {
        match self.first_contains(path_lower) {
            Some(i) => {
                proof {
                    lemma_first_rule_in_range(self.rules@, path_lower@, MatchMode::Contains, 0);
                }
                return Some(i);
            },
            None => {},
        }
        match self.first_of_mode(path_lower, MatchMode::StartsWith) {
            Some(i) => {
                proof {
                    lemma_first_rule_in_range(self.rules@, path_lower@, MatchMode::StartsWith, 0);
                }
                return Some(i);
            },
            None => {},
        }
        let r = self.first_of_mode(path_lower, MatchMode::EndsWith);
        proof {
            lemma_first_rule_in_range(self.rules@, path_lower@, MatchMode::EndsWith, 0);
        }
        r
    }
}

proof fn lemma_first_rule_in_range(rules: Seq<ExplainRule>, pl: Seq<char>, mode: MatchMode, i: int)
    requires
        0 <= i,
    ensures
        first_rule(rules, pl, mode, i) matches Some(k) ==> i <= k < rules.len(),
    decreases rules.len() - i,
{
    if i < rules.len() {
        lemma_first_rule_in_range(rules, pl, mode, i + 1);
    }
}

/// A path as the rules read it: ASCII letters lowercased, `/` read as `\`.
pub open spec fn explain_form(path: Seq<char>) -> Seq<char> {
    replace_char(ascii_lower(path), '/', '\\')
}

/// The part of a (trimmed, lowercased) path after its drive root (`c:` or
/// `c:\`), when it starts with an ASCII drive.
pub open spec fn drive_relative(t: Seq<char>) -> Option<Seq<char>> {
    if t.len() < 2 || (t[0] as u32) >= 128 || t[1] != ':' {
        None
    } else if t.len() == 2 {
        Some(Seq::empty())
    } else if t[2] != '\\' {
        None
    } else {
        Some(t.skip(3))
    }
}

/// Names directly under a drive root that only Windows manages.
pub open spec fn is_known_system_name(rel: Seq<char>) -> bool {
    ||| rel == "windows"@
    ||| rel == "pagefile.sys"@
    ||| rel == "hiberfil.sys"@
    ||| rel == "swapfile.sys"@
    ||| rel == "$recycle.bin"@
    ||| rel == "system volume information"@
    ||| rel == "recovery"@
    ||| rel == "boot"@
    ||| rel == "efi"@
    ||| rel == "$windows.~bt"@
    ||| rel == "$windows.~ws"@
    ||| rel == "$winreagent"@
    ||| rel == "$sysreset"@
    ||| rel == "windows.old"@
    ||| rel == "perflogs"@
}

/// The text fixed for a system name directly under a drive root.
pub open spec fn system_name_text(rel: Seq<char>) -> Seq<char> {
    if rel == "windows"@ {
        "Windows 系统目录，包含系统组件、驱动和服务文件，不建议手动删除或搬迁"@
    } else if rel == "pagefile.sys"@ {
        "Windows 虚拟内存分页文件，由系统管理，不应手动删除"@
    } else if rel == "hiberfil.sys"@ {
        "Windows 休眠文件，可通过关闭休眠释放空间，不应直接删除"@
    } else if rel == "swapfile.sys"@ {
        "Windows 应用交换文件，由系统管理，不应手动删除"@
    } else if rel == "$recycle.bin"@ {
        "Windows 回收站数据，可通过清空回收站释放空间"@
    } else if rel == "system volume information"@ {
        "系统还原点和卷影副本数据，由 Windows 保护和管理"@
    } else if rel == "recovery"@ {
        "Windows 恢复环境文件，用于系统修复和重置"@
    } else if rel == "boot"@ || rel == "efi"@ {
        "系统启动文件目录，删除或迁移可能导致无法启动"@
    } else if rel == "$windows.~bt"@ || rel == "$windows.~ws"@ || rel == "$winreagent"@ || rel == "$sysreset"@
        || rel == "windows.old"@ {
        "Windows 升级或重置残留目录，建议通过系统清理功能处理"@
    } else {
        "Windows 性能监视器日志目录，通常体积很小"@
    }
}

/// The text fixed for a path that [`is_fixed_path`] accepts.
pub open spec fn fixed_text(path: Seq<char>) -> Seq<char> {
    let t = trim_end_char(explain_form(path), '\\');
    if drive_relative(t) is Some && is_known_system_name(drive_relative(t)->0) {
        system_name_text(drive_relative(t)->0)
    } else if t == "c:\\program files"@ {
        "Program Files 是 64 位应用安装目录集合根，请选择具体应用目录而不是整体搬迁"@
    } else {
        "Program Files (x86) 是 32 位应用安装目录集合根，请选择具体应用目录而不是整体搬迁"@
    }
}

/// A path the explanation fixes without rules: a system name under a drive
/// root, or a Program Files root of drive C.
pub open spec fn is_fixed_path(path: Seq<char>) -> bool {
    let t = trim_end_char(explain_form(path), '\\');
    ||| (drive_relative(t) matches Some(rel) && is_known_system_name(rel))
    ||| t == "c:\\program files"@
    ||| t == "c:\\program files (x86)"@
}

/// The text given to a path no rule explains.
pub const UNKNOWN_EXPLANATION: &'static str = "未识别的文件或目录";

fn drive_relative_path(trimmed: &str) -> (r: Option<String>)
    ensures
        r is Some == drive_relative(trimmed@) is Some,
        r matches Some(x) ==> x@ == drive_relative(trimmed@)->0,
{
    let v = chars_of(trimmed);
    if v.len() < 2 || (v[0] as u32) >= 128 || v[1] != ':' {
        return None;
    }
    if v.len() == 2 {
        return Some(String::new());
    }
    if v[2] != '\\' {
        return None;
    }
    let mut out: Vec<char> = Vec::new();
    let mut i: usize = 3;
    while i < v.len()
        invariant
            3 <= i <= v.len(),
            v@ == trimmed@,
            out@ == trimmed@.subrange(3, i as int),
        decreases v.len() - i,
    {
        out.push(v[i]);
        i = i + 1;
        assert(out@ =~= trimmed@.subrange(3, i as int));
    }
    assert(trimmed@.skip(3) =~= trimmed@.subrange(3, v.len() as int));
    Some(string_from_chars(out.as_slice()))
}

fn windows_explanation(path: &str, text: &str) -> (r: FileExplanation)
    ensures
        r.path@ == path@,
        r.explanation@ == text@,
        r.app_name matches Some(a) && a@ == "Windows"@,
        !r.safe_to_delete,
        !r.will_regenerate,
{
    FileExplanation {
        path: owned(path),
        explanation: owned(text),
        app_name: Some(owned("Windows")),
        safe_to_delete: false,
        will_regenerate: false,
    }
}

fn known_windows_path_explanation(path: &str, trimmed: &str) -> (r: Option<FileExplanation>)
    ensures
        r is Some <==> (drive_relative(trimmed@) matches Some(rel) && is_known_system_name(rel)),
        r matches Some(e) ==> e.explanation@ == system_name_text(drive_relative(trimmed@)->0),
        r matches Some(e) ==> e.path@ == path@ && (e.app_name matches Some(a) && a@ == "Windows"@) && !e.safe_to_delete
            && !e.will_regenerate,
{
    let rel = match drive_relative_path(trimmed) {
        Some(r) => r,
        None => {
            return None;
        },
    };
    let r = rel.as_str();
    if str_eq(r, "windows") {
        Some(windows_explanation(path, "Windows 系统目录，包含系统组件、驱动和服务文件，不建议手动删除或搬迁"))
    } else if str_eq(r, "pagefile.sys") {
        Some(windows_explanation(path, "Windows 虚拟内存分页文件，由系统管理，不应手动删除"))
    } else if str_eq(r, "hiberfil.sys") {
        Some(windows_explanation(path, "Windows 休眠文件，可通过关闭休眠释放空间，不应直接删除"))
    } else if str_eq(r, "swapfile.sys") {
        Some(windows_explanation(path, "Windows 应用交换文件，由系统管理，不应手动删除"))
    } else if str_eq(r, "$recycle.bin") {
        Some(windows_explanation(path, "Windows 回收站数据，可通过清空回收站释放空间"))
    } else if str_eq(r, "system volume information") {
        Some(windows_explanation(path, "系统还原点和卷影副本数据，由 Windows 保护和管理"))
    } else if str_eq(r, "recovery") {
        Some(windows_explanation(path, "Windows 恢复环境文件，用于系统修复和重置"))
    } else if str_eq(r, "boot") || str_eq(r, "efi") {
        Some(windows_explanation(path, "系统启动文件目录，删除或迁移可能导致无法启动"))
    } else if str_eq(r, "$windows.~bt") || str_eq(r, "$windows.~ws") || str_eq(r, "$winreagent") || str_eq(
        r,
        "$sysreset",
    ) || str_eq(r, "windows.old") {
        Some(windows_explanation(path, "Windows 升级或重置残留目录，建议通过系统清理功能处理"))
    } else if str_eq(r, "perflogs") {
        Some(windows_explanation(path, "Windows 性能监视器日志目录，通常体积很小"))
    } else {
        None
    }
}

/// The explanation fixed for system paths and Program Files roots, if the
/// path is one.
pub fn explain_fixed_path(path: &str) -> (r: Option<FileExplanation>)
    ensures
        r is Some <==> is_fixed_path(path@),
        r matches Some(e) ==> e.explanation@ == fixed_text(path@),
        r matches Some(e) ==> e.path@ == path@ && (e.app_name matches Some(a) && a@ == "Windows"@) && !e.safe_to_delete
            && !e.will_regenerate,
{
    let lowered = to_ascii_lowercase(path);
    let path_lower = replace_char_str(lowered.as_str(), '/', '\\');
    let trimmed = trim_end_char_str(path_lower.as_str(), '\\');
    match known_windows_path_explanation(path, trimmed.as_str()) {
        Some(e) => {
            return Some(e);
        },
        None => {},
    }
    if str_eq(trimmed.as_str(), "c:\\program files") {
        return Some(windows_explanation(
            path,
            "Program Files 是 64 位应用安装目录集合根，请选择具体应用目录而不是整体搬迁",
        ));
    }
    if str_eq(trimmed.as_str(), "c:\\program files (x86)") {
        return Some(windows_explanation(
            path,
            "Program Files (x86) 是 32 位应用安装目录集合根，请选择具体应用目录而不是整体搬迁",
        ));
    }
    None
}

/// The explanation of a path no rule explains.
fn unknown_explanation(path: &str) -> (r: FileExplanation)
    ensures
        r.path@ == path@,
        r.explanation@ == UNKNOWN_EXPLANATION@,
        r.app_name is None,
        !r.safe_to_delete,
        !r.will_regenerate,
{
    FileExplanation {
        path: owned(path),
        explanation: owned(UNKNOWN_EXPLANATION),
        app_name: None,
        safe_to_delete: false,
        will_regenerate: false,
    }
}

/// The texts of an optional string.
pub open spec fn opt_view(o: Option<String>) -> Option<Seq<char>> {
    match o {
        Some(s) => Some(s@),
        None => None,
    }
}

/// What an explanation says of a path: its text, its application and its
/// two flags.
pub open spec fn explanation_view(e: FileExplanation) -> (Seq<char>, Option<Seq<char>>, bool, bool) {
    (e.explanation@, opt_view(e.app_name), e.safe_to_delete, e.will_regenerate)
}

/// The explanation of a path under a rule table: the fixed text of a
/// system path, else the rule chosen by [`rule_choice`] on the path's
/// lowercased form, else "unknown".
pub open spec fn explained(rules: Seq<ExplainRule>, path: Seq<char>) -> (Seq<char>, Option<Seq<char>>, bool, bool) {
    if is_fixed_path(path) {
        (fixed_text(path), Some("Windows"@), false, false)
    } else {
        match rule_choice(rules, explain_form(path)) {
            Some(i) => (
                rules[i].explanation@,
                opt_view(rules[i].app_name),
                rules[i].safe_to_delete,
                rules[i].will_regenerate,
            ),
            None => (UNKNOWN_EXPLANATION@, None, false, false),
        }
    }
}

/// A path explained under the engine's rules (see [`explained`]): the
/// fixed system paths first, then the first matching rule, else "unknown".
pub fn explain_path(engine: &ExplainEngine, path: &str) -> (r: FileExplanation)
    requires
        engine.wf(),
    ensures
        r.path@ == path@,
        explanation_view(r) == explained(engine.rules_view(), path@),
{
    match explain_fixed_path(path) {
        Some(e) => {
            return e;
        },
        None => {},
    }
    let lowered = to_ascii_lowercase(path);
    let path_lower = replace_char_str(lowered.as_str(), '/', '\\');
    match engine.choose_rule(path_lower.as_str()) {
        Some(i) => {
            let rule = &engine.rules[i];
            FileExplanation {
                path: owned(path),
                explanation: rule.explanation.clone(),
                app_name: crate::file_info::copy_opt_string(&rule.app_name),
                safe_to_delete: rule.safe_to_delete,
                will_regenerate: rule.will_regenerate,
            }
        },
        None => unknown_explanation(path),
    }
}

} // verus!
