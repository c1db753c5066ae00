//! The smart-scan report: large directories and files of a scan sorted into
//! groups (application caches, developer tools, temporary files, large
//! files), each with a recommendation and a risk, never touching the
//! system's protected locations.
use vstd::prelude::*;
use crate::by_size::{sort_by_size_desc, sorted_desc, SizeKeyed, SizedIndex};
use crate::file_info::{DirectoryNode, FileInfo};
use crate::path_utils::components_of;
use crate::scan_index::IndexedScanResult;
use crate::text::{
    ascii_lower, chars_of, contains, contains_seq, count_char, count_char_in, ends_with, is_prefix_of, is_suffix_of, owned, push_char,
    starts_with, str_eq, string_from_chars, to_ascii_lowercase, trim_end_char_str,
};
use crate::tree::sat_u64;

verus! {

/// Files at least this large are reported on their own (512 MiB).
pub const LARGE_FILE_THRESHOLD: u64 = 536870912;

/// Directories smaller than this are not reported (50 MiB).
pub const MIN_GROUP_ITEM_SIZE: u64 = 52428800;

/// At most this many items are kept per group.
pub const MAX_GROUP_ITEMS: usize = 80;

#[derive(Debug, Clone, Copy, PartialEq, Eq, Hash, Structural)]
pub enum SmartCategory {
    AppCache,
    DevTools,
    TempFiles,
    LargeFiles,
}

#[derive(Debug, Clone, Copy, PartialEq, Eq, Structural)]
pub enum SmartAction {
    Migrate,
    Delete,
    Review,
}

#[derive(Debug, Clone, Copy, PartialEq, Eq, Structural)]
pub enum SmartRisk {
    Safe,
    Caution,
    Blocked,
    Unknown,
}

pub struct SmartItem {
    pub path: String,
    pub name: String,
    pub size: u64,
    pub file_count: usize,
    pub category: SmartCategory,
    pub recommendation: SmartAction,
    pub risk: SmartRisk,
    pub rule: String,
    pub default_selected: bool,
}

pub struct SmartGroup {
    pub category: SmartCategory,
    pub recommendation: SmartAction,
    pub total_size: u64,
    pub item_count: usize,
    pub selected_size: u64,
    pub items: Vec<SmartItem>,
}

pub struct SmartScanReport {
    pub root_path: String,
    pub generated_at_ms: u64,
    pub potential_savings: u64,
    pub default_savings: u64,
    pub groups: Vec<SmartGroup>,
    pub analysis_duration_ms: u64,
}

impl SizeKeyed for SmartItem {
    open spec fn size_key(&self) -> u64 {
        self.size
    }

    fn key(&self) -> (r: u64) {
        self.size
    }
}

impl SizeKeyed for SmartGroup {
    open spec fn size_key(&self) -> u64 {
        self.selected_size
    }

    fn key(&self) -> (r: u64) {
        self.selected_size
    }
}

/// What a group recommends: caches and developer tools move, temporary
/// files go, large files are for review.
pub open spec fn recommendation_for(c: SmartCategory) -> SmartAction {
    match c {
        SmartCategory::AppCache => SmartAction::Migrate,
        SmartCategory::DevTools => SmartAction::Migrate,
        SmartCategory::TempFiles => SmartAction::Delete,
        SmartCategory::LargeFiles => SmartAction::Review,
    }
}

/// The recommendation of each category: temporary files are deleted,
/// application caches and developer tools are moved to another disk, large
/// files are left for the user to review.
pub proof fn law_category_recommendations()
    ensures
        recommendation_for(SmartCategory::TempFiles) == SmartAction::Delete,
        recommendation_for(SmartCategory::AppCache) == SmartAction::Migrate,
        recommendation_for(SmartCategory::DevTools) == SmartAction::Migrate,
        recommendation_for(SmartCategory::LargeFiles) == SmartAction::Review,
{
}

/// Every item a report can hold, whether made from a directory or from a
/// large file, carries its category's recommendation: temporary files are
/// deleted, caches and developer tools moved, large files reviewed.
pub proof fn law_reported_item_recommendation(it: SmartItem, nodes: Seq<DirectoryNode>, files: Seq<FileInfo>, root: Seq<char>)
    requires
        reported_from(it, nodes, files, root),
    ensures
        it.category == SmartCategory::TempFiles ==> it.recommendation == SmartAction::Delete,
        it.category == SmartCategory::AppCache ==> it.recommendation == SmartAction::Migrate,
        it.category == SmartCategory::DevTools ==> it.recommendation == SmartAction::Migrate,
        it.category == SmartCategory::LargeFiles ==> it.recommendation == SmartAction::Review,
{
    if exists|j: int| 0 <= j < nodes.len() && dir_reported(it, #[trigger] nodes[j], root) {
        let j = choose|j: int| 0 <= j < nodes.len() && dir_reported(it, #[trigger] nodes[j], root);
        assert(dir_reported(it, nodes[j], root));
    } else {
        let j = choose|j: int| 0 <= j < files.len() && (#[trigger] files[j]).size >= LARGE_FILE_THRESHOLD && file_reported(it, files[j]);
        assert(file_reported(it, files[j]));
    }
}

/// Every group of a report recommends what its category calls for:
/// deletion for temporary files, a move for caches and developer tools, a
/// review for large files.
pub proof fn law_group_recommendation(g: SmartGroup)
    requires
        group_ok(g),
    ensures
        g.category == SmartCategory::TempFiles ==> g.recommendation == SmartAction::Delete,
        g.category == SmartCategory::AppCache ==> g.recommendation == SmartAction::Migrate,
        g.category == SmartCategory::DevTools ==> g.recommendation == SmartAction::Migrate,
        g.category == SmartCategory::LargeFiles ==> g.recommendation == SmartAction::Review,
{
}

fn group_recommendation(c: SmartCategory) -> (r: SmartAction)
    ensures
        r == recommendation_for(c),
        c == SmartCategory::TempFiles ==> r == SmartAction::Delete,
        c == SmartCategory::AppCache || c == SmartCategory::DevTools ==> r == SmartAction::Migrate,
        c == SmartCategory::LargeFiles ==> r == SmartAction::Review,
{
    match c {
        SmartCategory::AppCache => SmartAction::Migrate,
        SmartCategory::DevTools => SmartAction::Migrate,
        SmartCategory::TempFiles => SmartAction::Delete,
        SmartCategory::LargeFiles => SmartAction::Review,
    }
}

/// Locations a report never touches (`p` lowercased): the system folders
/// of drive C, anything inside component stores, registry hives, the
/// Windows folders of a profile and packaged apps, program folders (games
/// in a Steam library excepted) and program data (a few GPU caches
/// excepted).
#[verifier::opaque]
pub open spec fn in_global_blocklist(p: Seq<char>) -> bool {
    ||| is_prefix_of("c:\\windows\\"@, p)
    ||| is_prefix_of("c:\\$recycle.bin\\"@, p)
    ||| is_prefix_of("c:\\system volume information\\"@, p)
    ||| is_prefix_of("c:\\recovery\\"@, p)
    ||| is_prefix_of("c:\\$windows.~bt\\"@, p)
    ||| is_prefix_of("c:\\$windows.~ws\\"@, p)
    ||| is_prefix_of("c:\\onedrivetemp\\"@, p)
    ||| is_prefix_of("c:\\perflogs\\"@, p)
    ||| is_prefix_of("c:\\boot\\"@, p)
    ||| is_prefix_of("c:\\efi\\"@, p)
    ||| is_prefix_of("c:\\msocache\\"@, p)
    ||| contains_seq(p, "\\winsxs\\"@)
    ||| contains_seq(p, "\\system32\\config\\"@)
    ||| contains_seq(p, "\\appdata\\roaming\\microsoft\\windows\\"@)
    ||| contains_seq(p, "\\appdata\\local\\microsoft\\windows\\"@)
    ||| contains_seq(p, "\\appdata\\local\\packages\\"@)
    ||| contains_seq(p, "\\driverstore\\filerepository\\"@)
    ||| (is_prefix_of("c:\\program files\\"@, p) && !contains_seq(p, "\\steam\\steamapps\\"@))
    ||| (is_prefix_of("c:\\program files (x86)\\"@, p) && !contains_seq(p, "\\steam\\steamapps\\"@))
    ||| (is_prefix_of("c:\\programdata\\"@, p) && !(is_prefix_of(
        "c:\\programdata\\nvidia corporation\\downloader"@,
        p,
    ) || is_prefix_of("c:\\programdata\\nvidia corporation\\nv_cache"@, p) || is_prefix_of(
        "c:\\programdata\\nvidia corporation\\drs"@,
        p,
    ) || is_prefix_of("c:\\programdata\\amd\\dxcache"@, p)))
}

pub fn is_in_global_blocklist(path_lower: &str) -> (r: bool)
    ensures
        r == in_global_blocklist(path_lower@),
{
    proof {
        reveal(in_global_blocklist);
    }
    let p = path_lower;
    starts_with(p, "c:\\windows\\") || starts_with(p, "c:\\$recycle.bin\\") || starts_with(
        p,
        "c:\\system volume information\\",
    ) || starts_with(p, "c:\\recovery\\") || starts_with(p, "c:\\$windows.~bt\\") || starts_with(
        p,
        "c:\\$windows.~ws\\",
    ) || starts_with(p, "c:\\onedrivetemp\\") || starts_with(p, "c:\\perflogs\\") || starts_with(
        p,
        "c:\\boot\\",
    ) || starts_with(p, "c:\\efi\\") || starts_with(p, "c:\\msocache\\") || contains(p, "\\winsxs\\")
        || contains(p, "\\system32\\config\\") || contains(p, "\\appdata\\roaming\\microsoft\\windows\\")
        || contains(p, "\\appdata\\local\\microsoft\\windows\\") || contains(p, "\\appdata\\local\\packages\\")
        || contains(p, "\\driverstore\\filerepository\\") || (starts_with(p, "c:\\program files\\") && !contains(
        p,
        "\\steam\\steamapps\\",
    )) || (starts_with(p, "c:\\program files (x86)\\") && !contains(p, "\\steam\\steamapps\\")) || (
    starts_with(p, "c:\\programdata\\") && !(starts_with(p, "c:\\programdata\\nvidia corporation\\downloader")
        || starts_with(p, "c:\\programdata\\nvidia corporation\\nv_cache") || starts_with(
        p,
        "c:\\programdata\\nvidia corporation\\drs",
    ) || starts_with(p, "c:\\programdata\\amd\\dxcache")))
}

/// What every reported item keeps: it lies outside the blocklist, and it is
/// selected by default exactly when it is safe and not left for review.
#[verifier::opaque]
pub open spec fn item_ok(it: SmartItem) -> bool {
    &&& !in_global_blocklist(ascii_lower(it.path@))
    &&& it.default_selected == (it.risk == SmartRisk::Safe && it.recommendation != SmartAction::Review)
}

/// `path` lies inside the directory `dir` (letter case ignored).
pub open spec fn inside_dir(path: Seq<char>, dir: Seq<char>) -> bool {
    let d = ascii_lower(dir);
    let prefix = if is_suffix_of("\\"@, d) { d } else { d.push('\\') };
    is_prefix_of(prefix, ascii_lower(path))
}

/// `path` lies inside one of the directories.
pub open spec fn inside_some(path: Seq<char>, dirs: Seq<Seq<char>>) -> bool {
    exists|k: int| 0 <= k < dirs.len() && inside_dir(path, #[trigger] dirs[k])
}

/// Whether `path` lies inside one of the already reported directories
/// (letter case ignored).
fn is_inside_classified(path: &str, classified: &Vec<String>) -> (r: bool)
    ensures
        r == inside_some(path@, crate::rules::texts(classified@)),
{
    let ghost ds = crate::rules::texts(classified@);
    let lower = to_ascii_lowercase(path);
    let mut i: usize = 0;
    while i < classified.len()
        invariant
            i <= classified@.len(),
            ds == crate::rules::texts(classified@),
            lower@ == ascii_lower(path@),
            forall|k: int| 0 <= k < i ==> !inside_dir(path@, #[trigger] ds[k]),
        decreases classified.len() - i,
    {
        let mut prefix = to_ascii_lowercase(classified[i].as_str());
        if !ends_with(prefix.as_str(), "\\") {
            push_char(&mut prefix, '\\');
        }
        assert(prefix@ == if is_suffix_of("\\"@, ascii_lower(ds[i as int])) {
            ascii_lower(ds[i as int])
        } else {
            ascii_lower(ds[i as int]).push('\\')
        });
        if starts_with(lower.as_str(), prefix.as_str()) {
            assert(inside_dir(path@, ds[i as int]));
            return true;
        }
        i = i + 1;
    }
    false
}

/// `rest` is the folder `sub` or lies inside it.
pub open spec fn user_subdir(rest: Seq<char>, sub: Seq<char>) -> bool {
    rest == sub || is_prefix_of(sub.push('\\'), rest)
}

/// The personal folders of a profile (`p` lowercased): a profile's own
/// Microsoft data, or one of its standard folders below `c:\users\<name>\`.
pub open spec fn blocked_user_dir(p: Seq<char>) -> bool {
    if contains_seq(p, "\\appdata\\roaming\\microsoft\\"@) || contains_seq(p, "\\appdata\\local\\microsoft\\onedrive\\"@)
        || contains_seq(p, "\\appdata\\local\\microsoft\\office\\"@) || contains_seq(
        p,
        "\\appdata\\local\\microsoft\\windowsapps\\"@,
    ) {
        true
    } else if !is_prefix_of("c:\\users\\"@, p) || p.len() < 9 {
        false
    } else {
        let slash = crate::junk_scan::first_from(p, '\\', 9);
        if slash >= p.len() {
            false
        } else {
            let a = p.skip(slash + 1);
            ||| user_subdir(a, "contacts"@)
            ||| user_subdir(a, "desktop"@)
            ||| user_subdir(a, "documents"@)
            ||| user_subdir(a, "downloads"@)
            ||| user_subdir(a, "favorites"@)
            ||| user_subdir(a, "links"@)
            ||| user_subdir(a, "music"@)
            ||| user_subdir(a, "onedrive"@)
            ||| user_subdir(a, "pictures"@)
            ||| user_subdir(a, "saved games"@)
            ||| user_subdir(a, "searches"@)
            ||| user_subdir(a, "videos"@)
        }
    }
}

/// Personal folders of a profile (see [`blocked_user_dir`]).
fn is_blocked_user_dir(path_lower: &str) -> (r: bool)
    ensures
        r == blocked_user_dir(path_lower@),
{
    if contains(path_lower, "\\appdata\\roaming\\microsoft\\") || contains(
        path_lower,
        "\\appdata\\local\\microsoft\\onedrive\\",
    ) || contains(path_lower, "\\appdata\\local\\microsoft\\office\\") || contains(
        path_lower,
        "\\appdata\\local\\microsoft\\windowsapps\\",
    ) {
        return true;
    }
    if !starts_with(path_lower, "c:\\users\\") {
        return false;
    }
    let v = chars_of(path_lower);
    if v.len() < 9 {
        return false;
    }
    let start: usize = 9;
    let mut slash = start;
    while slash < v.len() && v[slash] != '\\'
        invariant
            start <= slash <= v.len(),
            v@ == path_lower@,
            crate::junk_scan::first_from(v@, '\\', 9) == crate::junk_scan::first_from(v@, '\\', slash as int),
        decreases v.len() - slash,
    {
        slash = slash + 1;
    }
    if slash >= v.len() {
        return false;
    }
    let mut after: Vec<char> = Vec::new();
    let mut k = slash + 1;
    while k < v.len()
        invariant
            slash + 1 <= k <= v.len(),
            after@ == v@.subrange(slash + 1, k as int),
        decreases v.len() - k,
    {
        after.push(v[k]);
        k = k + 1;
        assert(after@ =~= v@.subrange(slash + 1, k as int));
    }
    assert(after@ =~= v@.skip(slash + 1));
    let after_user = string_from_chars(after.as_slice());
    let a = after_user.as_str();
    is_user_subdir(a, "contacts") || is_user_subdir(a, "desktop") || is_user_subdir(a, "documents")
        || is_user_subdir(a, "downloads") || is_user_subdir(a, "favorites") || is_user_subdir(a, "links")
        || is_user_subdir(a, "music") || is_user_subdir(a, "onedrive") || is_user_subdir(a, "pictures")
        || is_user_subdir(a, "saved games") || is_user_subdir(a, "searches") || is_user_subdir(a, "videos")
}

/// `rest` is the folder `sub` or lies inside it (see [`user_subdir`]).
fn is_user_subdir(rest: &str, sub: &str) -> (r: bool)
    ensures
        r == user_subdir(rest@, sub@),
{
    if str_eq(rest, sub) {
        return true;
    }
    let mut with_sep = owned(sub);
    push_char(&mut with_sep, '\\');
    starts_with(rest, with_sep.as_str())
}

/// The developer-tool rule a directory (lowercased name and path)
/// matches, with its risk.
pub open spec fn dev_tool_rule(name: Seq<char>, path: Seq<char>) -> Option<(Seq<char>, SmartRisk)> {
    if name == "node_modules"@ {
        Some(("node_modules"@, SmartRisk::Safe))
    } else if name == ".pnpm-store"@ {
        Some(("pnpm store"@, SmartRisk::Safe))
    } else if name == ".pnpm"@ && contains_seq(path, "\\.pnpm"@) {
        Some(("pnpm 缓存"@, SmartRisk::Safe))
    } else if is_suffix_of("\\.gradle\\caches"@, path) || contains_seq(path, "\\.gradle\\caches\\"@) {
        Some(("Gradle 缓存"@, SmartRisk::Safe))
    } else if name == ".gradle"@ {
        Some(("Gradle 主目录"@, SmartRisk::Caution))
    } else if name == ".m2"@ {
        Some(("Maven (.m2)"@, SmartRisk::Safe))
    } else if contains_seq(path, "\\.cargo\\registry"@) || contains_seq(path, "\\.cargo\\git"@) {
        Some(("Rust 包缓存"@, SmartRisk::Safe))
    } else if name == ".cargo"@ || name == ".rustup"@ {
        Some(("Rust toolchain"@, SmartRisk::Caution))
    } else if name == ".npm"@ {
        Some(("npm 缓存"@, SmartRisk::Safe))
    } else if name == ".yarn"@ || name == ".yarn-cache"@ {
        Some(("Yarn 缓存"@, SmartRisk::Safe))
    } else if name == ".nuget"@ {
        Some(("NuGet 包"@, SmartRisk::Safe))
    } else if name == "__pycache__"@ {
        Some(("Python __pycache__"@, SmartRisk::Safe))
    } else if contains_seq(path, "\\pip\\cache"@) || is_suffix_of("\\pip\\cache"@, path) {
        Some(("pip 缓存"@, SmartRisk::Safe))
    } else if (name == "venv"@ || name == ".venv"@) && count_char(path, '\\') >= 4 {
        Some(("Python 虚拟环境"@, SmartRisk::Caution))
    } else if contains_seq(path, "\\go\\pkg\\mod"@) || contains_seq(path, "\\go\\pkg\\cache"@) {
        Some(("Go 模块缓存"@, SmartRisk::Safe))
    } else {
        None
    }
}

/// The rule a label/risk pair of a match gives, as values.
pub open spec fn rule_view(r: Option<(&'static str, SmartRisk)>) -> Option<(Seq<char>, SmartRisk)> {
    match r {
        Some((label, risk)) => Some((label@, risk)),
        None => None,
    }
}

fn match_dev_tools(name: &str, path: &str) -> (r: Option<(&'static str, SmartRisk)>)
    ensures
        rule_view(r) == dev_tool_rule(name@, path@),
{
    if str_eq(name, "node_modules") {
        return Some(("node_modules", SmartRisk::Safe));
    }
    if str_eq(name, ".pnpm-store") {
        return Some(("pnpm store", SmartRisk::Safe));
    }
    if str_eq(name, ".pnpm") && contains(path, "\\.pnpm") {
        return Some(("pnpm 缓存", SmartRisk::Safe));
    }
    if ends_with(path, "\\.gradle\\caches") || contains(path, "\\.gradle\\caches\\") {
        return Some(("Gradle 缓存", SmartRisk::Safe));
    }
    if str_eq(name, ".gradle") {
        return Some(("Gradle 主目录", SmartRisk::Caution));
    }
    if str_eq(name, ".m2") {
        return Some(("Maven (.m2)", SmartRisk::Safe));
    }
    if contains(path, "\\.cargo\\registry") || contains(path, "\\.cargo\\git") {
        return Some(("Rust 包缓存", SmartRisk::Safe));
    }
    if str_eq(name, ".cargo") || str_eq(name, ".rustup") {
        return Some(("Rust toolchain", SmartRisk::Caution));
    }
    if str_eq(name, ".npm") {
        return Some(("npm 缓存", SmartRisk::Safe));
    }
    if str_eq(name, ".yarn") || str_eq(name, ".yarn-cache") {
        return Some(("Yarn 缓存", SmartRisk::Safe));
    }
    if str_eq(name, ".nuget") {
        return Some(("NuGet 包", SmartRisk::Safe));
    }
    if str_eq(name, "__pycache__") {
        return Some(("Python __pycache__", SmartRisk::Safe));
    }
    if contains(path, "\\pip\\cache") || ends_with(path, "\\pip\\cache") {
        return Some(("pip 缓存", SmartRisk::Safe));
    }
    if (str_eq(name, "venv") || str_eq(name, ".venv")) && count_char_in(chars_of(path).as_slice(), '\\') >= 4 {
        return Some(("Python 虚拟环境", SmartRisk::Caution));
    }
    if contains(path, "\\go\\pkg\\mod") || contains(path, "\\go\\pkg\\cache") {
        return Some(("Go 模块缓存", SmartRisk::Safe));
    }
    None
}

/// The temporary-files rule a directory (lowercased name and path)
/// matches, with its risk.
pub open spec fn temp_rule(name: Seq<char>, path: Seq<char>) -> Option<(Seq<char>, SmartRisk)> {
    if contains_seq(path, "\\appdata\\local\\temp"@) {
        if is_suffix_of("\\appdata\\local\\temp"@, path) {
            Some(("用户 Temp 根"@, SmartRisk::Safe))
        } else {
            Some(("用户 Temp 子目录"@, SmartRisk::Safe))
        }
    } else if is_prefix_of("c:\\windows\\temp"@, path) {
        Some(("系统 Temp"@, SmartRisk::Caution))
    } else if is_suffix_of("\\windows\\softwaredistribution\\download"@, path) {
        Some(("Windows Update 下载"@, SmartRisk::Safe))
    } else if is_suffix_of("\\crashdumps"@, path) || name == "crashdumps"@ || name == "minidump"@ {
        Some(("崩溃转储"@, SmartRisk::Safe))
    } else if (name == "logs"@ || name == "log"@) && contains_seq(path, "\\appdata\\"@) {
        Some(("日志目录"@, SmartRisk::Safe))
    } else {
        None
    }
}

fn match_temp(name: &str, path: &str) -> (r: Option<(&'static str, SmartRisk)>)
    ensures
        rule_view(r) == temp_rule(name@, path@),
{
    if contains(path, "\\appdata\\local\\temp") {
        if ends_with(path, "\\appdata\\local\\temp") {
            return Some(("用户 Temp 根", SmartRisk::Safe));
        }
        return Some(("用户 Temp 子目录", SmartRisk::Safe));
    }
    if starts_with(path, "c:\\windows\\temp") {
        return Some(("系统 Temp", SmartRisk::Caution));
    }
    if ends_with(path, "\\windows\\softwaredistribution\\download") {
        return Some(("Windows Update 下载", SmartRisk::Safe));
    }
    if ends_with(path, "\\crashdumps") || str_eq(name, "crashdumps") || str_eq(name, "minidump") {
        return Some(("崩溃转储", SmartRisk::Safe));
    }
    if (str_eq(name, "logs") || str_eq(name, "log")) && contains(path, "\\appdata\\") {
        return Some(("日志目录", SmartRisk::Safe));
    }
    None
}

/// The known application caches: a path fragment, the rule's label and
/// its risk.
pub open spec fn app_cache_table() -> Seq<(Seq<char>, Seq<char>, SmartRisk)> {
    seq![
        ("\\google\\chrome\\user data\\default\\cache\\cache_data"@, "Chrome 缓存"@, SmartRisk::Safe),
        ("\\google\\chrome\\user data\\default\\code cache"@, "Chrome 代码缓存"@, SmartRisk::Safe),
        ("\\google\\chrome\\user data\\default\\gpucache"@, "Chrome GPU 缓存"@, SmartRisk::Safe),
        ("\\google\\chrome\\user data\\default\\service worker"@, "Chrome Service Worker"@, SmartRisk::Safe),
        ("\\google\\chrome\\user data\\default\\optguideondevicemodel"@, "Chrome 端侧模型"@, SmartRisk::Safe),
        ("\\google\\chrome\\user data\\optguideondevicemodel"@, "Chrome 端侧模型"@, SmartRisk::Safe),
        ("\\google\\chrome\\user data\\shadercache"@, "Chrome Shader 缓存"@, SmartRisk::Safe),
        ("\\microsoft\\edge\\user data\\default\\cache\\cache_data"@, "Edge 缓存"@, SmartRisk::Safe),
        ("\\microsoft\\edge\\user data\\default\\code cache"@, "Edge 代码缓存"@, SmartRisk::Safe),
        ("\\microsoft\\edge\\user data\\default\\gpucache"@, "Edge GPU 缓存"@, SmartRisk::Safe),
        ("\\microsoft\\edge\\user data\\default\\service worker"@, "Edge Service Worker"@, SmartRisk::Safe),
        ("\\microsoft\\edge\\user data\\shadercache"@, "Edge Shader 缓存"@, SmartRisk::Safe),
        ("\\mozilla\\firefox\\profiles\\"@, "Firefox 配置缓存"@, SmartRisk::Caution),
        ("\\code\\cache"@, "VSCode 缓存"@, SmartRisk::Safe),
        ("\\code\\code cache"@, "VSCode 代码缓存"@, SmartRisk::Safe),
        ("\\code\\gpucache"@, "VSCode GPU 缓存"@, SmartRisk::Safe),
        ("\\code\\cachedextensions"@, "VSCode 扩展缓存"@, SmartRisk::Caution),
        ("\\code\\service worker"@, "VSCode Service Worker"@, SmartRisk::Safe),
        ("\\jetbrains\\"@, "JetBrains 数据"@, SmartRisk::Caution),
        ("\\trae cn\\"@, "Trae CN 数据"@, SmartRisk::Caution),
        ("\\trae\\"@, "Trae 数据"@, SmartRisk::Caution),
        ("\\kiro\\"@, "Kiro 数据"@, SmartRisk::Caution),
        ("\\cursor\\"@, "Cursor 数据"@, SmartRisk::Caution),
        ("\\nvidia corporation\\downloader"@, "NVIDIA 下载器"@, SmartRisk::Safe),
        ("\\nvidia corporation\\nv_cache"@, "NVIDIA 着色器缓存"@, SmartRisk::Safe),
        ("\\nvidia corporation\\drs"@, "NVIDIA 配置"@, SmartRisk::Caution),
        ("\\amd\\dxcache"@, "AMD 着色器缓存"@, SmartRisk::Safe),
        ("\\amd\\glcache"@, "AMD GL 缓存"@, SmartRisk::Safe),
        ("\\.android\\avd"@, "Android AVD 镜像"@, SmartRisk::Caution),
        ("\\docker\\wsl"@, "Docker WSL 数据"@, SmartRisk::Caution),
        ("\\unity\\cache"@, "Unity 缓存"@, SmartRisk::Safe),
        ("\\unity\\asset store"@, "Unity Asset Store"@, SmartRisk::Caution),
        ("\\.gradle\\caches"@, "Gradle 缓存"@, SmartRisk::Safe),
    ]
}

/// The first known cache from position `i` on whose fragment the
/// (lowercased) path contains.
pub open spec fn first_known_cache(path: Seq<char>, i: int) -> Option<(Seq<char>, SmartRisk)>
    decreases 33 - i,
{
    if i < 0 || i >= 33 {
        None
    } else if contains_seq(path, app_cache_table()[i].0) {
        Some((app_cache_table()[i].1, app_cache_table()[i].2))
    } else {
        first_known_cache(path, i + 1)
    }
}

/// The application-cache rule a directory (lowercased name and path)
/// matches: a known cache first, else a generic cache folder under
/// `appdata\local` or `appdata\roaming`.
pub open spec fn app_cache_rule(name: Seq<char>, path: Seq<char>) -> Option<(Seq<char>, SmartRisk)> {
    match first_known_cache(path, 0) {
        Some(x) => Some(x),
        None => if (name == "cache"@ || name == "caches"@ || name == "code cache"@ || name == "gpucache"@) && (contains_seq(
            path,
            "\\appdata\\local\\"@,
        ) || contains_seq(path, "\\appdata\\roaming\\"@)) {
            Some(("通用应用缓存"@, SmartRisk::Caution))
        } else {
            None
        },
    }
}

fn match_app_cache(name: &str, path: &str) -> (r: Option<(&'static str, SmartRisk)>)
    ensures
        rule_view(r) == app_cache_rule(name@, path@),
{
    let known: [(&'static str, &'static str, SmartRisk); 33] = [
        ("\\google\\chrome\\user data\\default\\cache\\cache_data", "Chrome 缓存", SmartRisk::Safe),
        ("\\google\\chrome\\user data\\default\\code cache", "Chrome 代码缓存", SmartRisk::Safe),
        ("\\google\\chrome\\user data\\default\\gpucache", "Chrome GPU 缓存", SmartRisk::Safe),
        ("\\google\\chrome\\user data\\default\\service worker", "Chrome Service Worker", SmartRisk::Safe),
        ("\\google\\chrome\\user data\\default\\optguideondevicemodel", "Chrome 端侧模型", SmartRisk::Safe),
        ("\\google\\chrome\\user data\\optguideondevicemodel", "Chrome 端侧模型", SmartRisk::Safe),
        ("\\google\\chrome\\user data\\shadercache", "Chrome Shader 缓存", SmartRisk::Safe),
        ("\\microsoft\\edge\\user data\\default\\cache\\cache_data", "Edge 缓存", SmartRisk::Safe),
        ("\\microsoft\\edge\\user data\\default\\code cache", "Edge 代码缓存", SmartRisk::Safe),
        ("\\microsoft\\edge\\user data\\default\\gpucache", "Edge GPU 缓存", SmartRisk::Safe),
        ("\\microsoft\\edge\\user data\\default\\service worker", "Edge Service Worker", SmartRisk::Safe),
        ("\\microsoft\\edge\\user data\\shadercache", "Edge Shader 缓存", SmartRisk::Safe),
        ("\\mozilla\\firefox\\profiles\\", "Firefox 配置缓存", SmartRisk::Caution),
        ("\\code\\cache", "VSCode 缓存", SmartRisk::Safe),
        ("\\code\\code cache", "VSCode 代码缓存", SmartRisk::Safe),
        ("\\code\\gpucache", "VSCode GPU 缓存", SmartRisk::Safe),
        ("\\code\\cachedextensions", "VSCode 扩展缓存", SmartRisk::Caution),
        ("\\code\\service worker", "VSCode Service Worker", SmartRisk::Safe),
        ("\\jetbrains\\", "JetBrains 数据", SmartRisk::Caution),
        ("\\trae cn\\", "Trae CN 数据", SmartRisk::Caution),
        ("\\trae\\", "Trae 数据", SmartRisk::Caution),
        ("\\kiro\\", "Kiro 数据", SmartRisk::Caution),
        ("\\cursor\\", "Cursor 数据", SmartRisk::Caution),
        ("\\nvidia corporation\\downloader", "NVIDIA 下载器", SmartRisk::Safe),
        ("\\nvidia corporation\\nv_cache", "NVIDIA 着色器缓存", SmartRisk::Safe),
        ("\\nvidia corporation\\drs", "NVIDIA 配置", SmartRisk::Caution),
        ("\\amd\\dxcache", "AMD 着色器缓存", SmartRisk::Safe),
        ("\\amd\\glcache", "AMD GL 缓存", SmartRisk::Safe),
        ("\\.android\\avd", "Android AVD 镜像", SmartRisk::Caution),
        ("\\docker\\wsl", "Docker WSL 数据", SmartRisk::Caution),
        ("\\unity\\cache", "Unity 缓存", SmartRisk::Safe),
        ("\\unity\\asset store", "Unity Asset Store", SmartRisk::Caution),
        ("\\.gradle\\caches", "Gradle 缓存", SmartRisk::Safe),
    ];
    assert(Seq::new(33, |k: int| (known@[k].0@, known@[k].1@, known@[k].2)) =~= app_cache_table());
    let mut i: usize = 0;
    while i < 33
        invariant
            i <= 33,
            known@.len() == 33,
            Seq::new(33, |k: int| (known@[k].0@, known@[k].1@, known@[k].2)) == app_cache_table(),
            first_known_cache(path@, 0) == first_known_cache(path@, i as int),
        decreases 33 - i,
    {
        let (kw, label, risk) = known[i];
        assert((kw@, label@, risk) == app_cache_table()[i as int]);
        if contains(path, kw) {
            return Some((label, risk));
        }
        i = i + 1;
    }
    if (str_eq(name, "cache") || str_eq(name, "caches") || str_eq(name, "code cache") || str_eq(name, "gpucache"))
        && (contains(path, "\\appdata\\local\\") || contains(path, "\\appdata\\roaming\\")) {
        return Some(("通用应用缓存", SmartRisk::Caution));
    }
    None
}

fn make_item(
    node: &DirectoryNode,
    category: SmartCategory,
    recommendation: SmartAction,
    rule: &str,
    risk: SmartRisk,
) -> (r: SmartItem)
    ensures
        r.path == node.path,
        r.name == node.name,
        r.file_count == node.file_count,
        r.rule@ == rule@,
        r.size == node.size,
        r.category == category,
        r.recommendation == recommendation,
        r.risk == risk,
        r.default_selected == (risk == SmartRisk::Safe && recommendation != SmartAction::Review),
{
    let default_selected = risk == SmartRisk::Safe && recommendation != SmartAction::Review;
    SmartItem {
        path: node.path.clone(),
        name: node.name.clone(),
        size: node.size,
        file_count: node.file_count,
        category,
        recommendation,
        risk,
        rule: owned(rule),
        default_selected,
    }
}

/// Two paths are the same when they agree, letter case and trailing
/// backslashes aside.
pub open spec fn same_root(p: Seq<char>, root: Seq<char>) -> bool {
    ascii_lower(crate::text::trim_end_char(p, '\\')) == ascii_lower(crate::text::trim_end_char(root, '\\'))
}

/// Whether two paths are the same (see [`same_root`]).
fn path_eq_root(p: &str, root: &str) -> (r: bool)
    ensures
        r == same_root(p@, root@),
{
    let a = trim_end_char_str(p, '\\');
    let b = trim_end_char_str(root, '\\');
    let la = to_ascii_lowercase(a.as_str());
    let lb = to_ascii_lowercase(b.as_str());
    str_eq(la.as_str(), lb.as_str())
}

/// The rule a directory falls under: none when it is below
/// [`MIN_GROUP_ITEM_SIZE`], a link, the scan root, in the blocklist or a
/// personal folder; else the first of the developer-tool, temporary-files
/// and application-cache rules it matches (name and path lowercased).
pub open spec fn dir_rule(node: DirectoryNode, root: Seq<char>) -> Option<(SmartCategory, Seq<char>, SmartRisk)> {
    let name = ascii_lower(node.name@);
    let p = ascii_lower(node.path@);
    if node.size < MIN_GROUP_ITEM_SIZE || node.is_symlink || same_root(node.path@, root) || in_global_blocklist(p)
        || blocked_user_dir(p) {
        None
    } else {
        match dev_tool_rule(name, p) {
            Some((rule, risk)) => Some((SmartCategory::DevTools, rule, risk)),
            None => match temp_rule(name, p) {
                Some((rule, risk)) => Some((SmartCategory::TempFiles, rule, risk)),
                None => match app_cache_rule(name, p) {
                    Some((rule, risk)) => Some((SmartCategory::AppCache, rule, risk)),
                    None => None,
                },
            },
        }
    }
}

/// The item reported for a directory under a rule: the directory's path,
/// name, size and file count, the rule's category, recommendation, label
/// and risk, selected when safe and not for review.
pub open spec fn dir_item(it: SmartItem, node: DirectoryNode, category: SmartCategory, rule: Seq<char>, risk: SmartRisk) -> bool {
    &&& it.path == node.path
    &&& it.name == node.name
    &&& it.size == node.size
    &&& it.file_count == node.file_count
    &&& it.category == category
    &&& it.recommendation == recommendation_for(category)
    &&& it.rule@ == rule
    &&& it.risk == risk
    &&& it.default_selected == (risk == SmartRisk::Safe && recommendation_for(category) != SmartAction::Review)
}

/// A directory worth reporting (see [`dir_rule`]).
fn classify_dir(node: &DirectoryNode, root_path: &str) -> (r: Option<SmartItem>)
    ensures
        r matches Some(it) ==> item_ok(it) && it.category != SmartCategory::LargeFiles && it.recommendation
            == recommendation_for(it.category) && it.size == node.size && it.path == node.path,
        match dir_rule(*node, root_path@) {
            None => r is None,
            Some((c, rule, risk)) => r matches Some(it) && dir_item(it, *node, c, rule, risk),
        },
{
    proof {
        reveal(item_ok);
    }
    if node.size < MIN_GROUP_ITEM_SIZE {
        return None;
    }
    if node.is_symlink {
        return None;
    }
    if path_eq_root(node.path.as_str(), root_path) {
        return None;
    }
    let name_lower = to_ascii_lowercase(node.name.as_str());
    let path_lower = to_ascii_lowercase(node.path.as_str());
    if is_in_global_blocklist(path_lower.as_str()) {
        return None;
    }
    if is_blocked_user_dir(path_lower.as_str()) {
        return None;
    }
    match match_dev_tools(name_lower.as_str(), path_lower.as_str()) {
        Some((rule, risk)) => {
            return Some(make_item(node, SmartCategory::DevTools, SmartAction::Migrate, rule, risk));
        },
        None => {},
    }
    match match_temp(name_lower.as_str(), path_lower.as_str()) {
        Some((rule, risk)) => {
            return Some(make_item(node, SmartCategory::TempFiles, SmartAction::Delete, rule, risk));
        },
        None => {},
    }
    match match_app_cache(name_lower.as_str(), path_lower.as_str()) {
        Some((rule, risk)) => {
            return Some(make_item(node, SmartCategory::AppCache, SmartAction::Migrate, rule, risk));
        },
        None => {},
    }
    None
}

/// Files only Windows itself uses, at the root of a volume (`p`
/// lowercased).
pub open spec fn volume_system_file(p: Seq<char>) -> bool {
    ||| is_suffix_of("\\pagefile.sys"@, p)
    ||| is_suffix_of("\\swapfile.sys"@, p)
    ||| is_suffix_of("\\hiberfil.sys"@, p)
    ||| is_suffix_of("\\dumpstack.log.tmp"@, p)
    ||| is_suffix_of("\\dumpstack.log"@, p)
    ||| is_suffix_of("\\bootmgr"@, p)
    ||| is_suffix_of("\\bootnxt"@, p)
    ||| is_suffix_of("\\config.sys"@, p)
    ||| is_suffix_of("\\msdos.sys"@, p)
    ||| is_suffix_of("\\io.sys"@, p)
    ||| is_suffix_of("\\ntldr"@, p)
    ||| is_suffix_of("\\bootsect.bak"@, p)
}

/// Whether a file is one only Windows itself uses (see
/// [`volume_system_file`]).
fn is_volume_system_file(path_lower: &str) -> (r: bool)
    ensures
        r == volume_system_file(path_lower@),
{
    ends_with(path_lower, "\\pagefile.sys") || ends_with(path_lower, "\\swapfile.sys") || ends_with(
        path_lower,
        "\\hiberfil.sys",
    ) || ends_with(path_lower, "\\dumpstack.log.tmp") || ends_with(path_lower, "\\dumpstack.log") || ends_with(
        path_lower,
        "\\bootmgr",
    ) || ends_with(path_lower, "\\bootnxt") || ends_with(path_lower, "\\config.sys") || ends_with(
        path_lower,
        "\\msdos.sys",
    ) || ends_with(path_lower, "\\io.sys") || ends_with(path_lower, "\\ntldr") || ends_with(
        path_lower,
        "\\bootsect.bak",
    )
}

/// The known application data of large files: a path fragment, the rule's
/// label and its risk.
pub open spec fn cache_file_table() -> Seq<(Seq<char>, Seq<char>, SmartRisk)> {
    seq![
        ("\\google\\chrome\\user data\\optguideondevicemodel"@, "Chrome 端侧模型"@, SmartRisk::Safe),
        ("\\microsoft\\edge\\user data\\optguideondevicemodel"@, "Edge 端侧模型"@, SmartRisk::Safe),
        ("\\google\\chrome\\user data\\"@, "Chrome 用户数据"@, SmartRisk::Caution),
        ("\\microsoft\\edge\\user data\\"@, "Edge 用户数据"@, SmartRisk::Caution),
        ("\\nvidia corporation\\downloader"@, "NVIDIA 下载器"@, SmartRisk::Safe),
        ("\\nvidia corporation\\nv_cache"@, "NVIDIA 着色器缓存"@, SmartRisk::Safe),
        ("\\amd\\dxcache"@, "AMD 着色器缓存"@, SmartRisk::Safe),
    ]
}

/// The first known application data from position `i` on whose fragment
/// the (lowercased) path contains.
pub open spec fn first_cache_file(path: Seq<char>, i: int) -> Option<(Seq<char>, SmartRisk)>
    decreases 7 - i,
{
    if i < 0 || i >= 7 {
        None
    } else if contains_seq(path, cache_file_table()[i].0) {
        Some((cache_file_table()[i].1, cache_file_table()[i].2))
    } else {
        first_cache_file(path, i + 1)
    }
}

/// The rule a large file (path lowercased) falls under: known application
/// data first, then disk images, virtual disks, videos, archives and
/// mailboxes by extension.
pub open spec fn large_file_rule(p: Seq<char>) -> Option<(Seq<char>, SmartRisk, SmartCategory)> {
    match first_cache_file(p, 0) {
        Some((label, risk)) => Some((label, risk, SmartCategory::AppCache)),
        None => if is_suffix_of(".iso"@, p) || is_suffix_of(".img"@, p) {
            Some(("光盘镜像"@, SmartRisk::Safe, SmartCategory::LargeFiles))
        } else if is_suffix_of(".vhd"@, p) || is_suffix_of(".vhdx"@, p) || is_suffix_of(".vmdk"@, p) || is_suffix_of(".qcow2"@, p) {
            Some(("虚拟磁盘"@, SmartRisk::Caution, SmartCategory::LargeFiles))
        } else if is_suffix_of(".mp4"@, p) || is_suffix_of(".mkv"@, p) || is_suffix_of(".mov"@, p) || is_suffix_of(".avi"@, p)
            || is_suffix_of(".webm"@, p) || is_suffix_of(".flv"@, p) {
            Some(("视频文件"@, SmartRisk::Safe, SmartCategory::LargeFiles))
        } else if is_suffix_of(".zip"@, p) || is_suffix_of(".7z"@, p) || is_suffix_of(".rar"@, p) || is_suffix_of(".tar"@, p)
            || is_suffix_of(".gz"@, p) || is_suffix_of(".xz"@, p) {
            Some(("压缩包"@, SmartRisk::Safe, SmartCategory::LargeFiles))
        } else if is_suffix_of(".pst"@, p) || is_suffix_of(".ost"@, p) {
            Some(("Outlook 邮件库"@, SmartRisk::Caution, SmartCategory::LargeFiles))
        } else {
            None
        },
    }
}

/// The rule of a match with its category, as values.
pub open spec fn file_rule_view(r: Option<(&'static str, SmartRisk, SmartCategory)>) -> Option<(Seq<char>, SmartRisk, SmartCategory)> {
    match r {
        Some((label, risk, c)) => Some((label@, risk, c)),
        None => None,
    }
}

/// The rule a large file falls under (see [`large_file_rule`]).
fn classify_large_file(path_lower: &str) -> (r: Option<(&'static str, SmartRisk, SmartCategory)>)
    ensures
        file_rule_view(r) == large_file_rule(path_lower@),
{
    let app_cache_files: [(&'static str, &'static str, SmartRisk); 7] = [
        ("\\google\\chrome\\user data\\optguideondevicemodel", "Chrome 端侧模型", SmartRisk::Safe),
        ("\\microsoft\\edge\\user data\\optguideondevicemodel", "Edge 端侧模型", SmartRisk::Safe),
        ("\\google\\chrome\\user data\\", "Chrome 用户数据", SmartRisk::Caution),
        ("\\microsoft\\edge\\user data\\", "Edge 用户数据", SmartRisk::Caution),
        ("\\nvidia corporation\\downloader", "NVIDIA 下载器", SmartRisk::Safe),
        ("\\nvidia corporation\\nv_cache", "NVIDIA 着色器缓存", SmartRisk::Safe),
        ("\\amd\\dxcache", "AMD 着色器缓存", SmartRisk::Safe),
    ];
    assert(Seq::new(7, |k: int| (app_cache_files@[k].0@, app_cache_files@[k].1@, app_cache_files@[k].2)) =~= cache_file_table());
    let mut i: usize = 0;
    while i < 7
        invariant
            i <= 7,
            app_cache_files@.len() == 7,
            Seq::new(7, |k: int| (app_cache_files@[k].0@, app_cache_files@[k].1@, app_cache_files@[k].2)) == cache_file_table(),
            first_cache_file(path_lower@, 0) == first_cache_file(path_lower@, i as int),
        decreases 7 - i,
    {
        let (kw, label, risk) = app_cache_files[i];
        assert((kw@, label@, risk) == cache_file_table()[i as int]);
        if contains(path_lower, kw) {
            return Some((label, risk, SmartCategory::AppCache));
        }
        i = i + 1;
    }
    let p = path_lower;
    if ends_with(p, ".iso") || ends_with(p, ".img") {
        return Some(("光盘镜像", SmartRisk::Safe, SmartCategory::LargeFiles));
    }
    if ends_with(p, ".vhd") || ends_with(p, ".vhdx") || ends_with(p, ".vmdk") || ends_with(p, ".qcow2") {
        return Some(("虚拟磁盘", SmartRisk::Caution, SmartCategory::LargeFiles));
    }
    if ends_with(p, ".mp4") || ends_with(p, ".mkv") || ends_with(p, ".mov") || ends_with(p, ".avi") || ends_with(
        p,
        ".webm",
    ) || ends_with(p, ".flv") {
        return Some(("视频文件", SmartRisk::Safe, SmartCategory::LargeFiles));
    }
    if ends_with(p, ".zip") || ends_with(p, ".7z") || ends_with(p, ".rar") || ends_with(p, ".tar") || ends_with(
        p,
        ".gz",
    ) || ends_with(p, ".xz") {
        return Some(("压缩包", SmartRisk::Safe, SmartCategory::LargeFiles));
    }
    if ends_with(p, ".pst") || ends_with(p, ".ost") {
        return Some(("Outlook 邮件库", SmartRisk::Caution, SmartCategory::LargeFiles));
    }
    None
}

/// The last name of a path, when it ends in one (not a drive, a root or
/// `..`; see [`crate::rename_merge::file_name_of`]).
pub fn file_name_of(path: &str) -> (r: Option<String>)
    ensures
        r matches Some(s) ==> crate::rename_merge::file_name_of(path@) == Some(s@),
        r is None ==> crate::rename_merge::file_name_of(path@) is None,
{
    crate::rename_merge::file_name_text(path)
}

/// The item reported for a large file under a rule: the file's path, its
/// name (the path's last name, else the recorded one), size and one file.
pub open spec fn file_item(it: SmartItem, f: FileInfo, category: SmartCategory, recommendation: SmartAction, rule: Seq<char>, risk: SmartRisk, selected: bool) -> bool {
    &&& it.path == f.path
    &&& it.name@ == match crate::rename_merge::file_name_of(f.path@) {
        Some(n) => n,
        None => f.name@,
    }
    &&& it.size == f.size
    &&& it.file_count == 1
    &&& it.category == category
    &&& it.recommendation == recommendation
    &&& it.rule@ == rule
    &&& it.risk == risk
    &&& it.default_selected == selected
}

/// The item is what the report makes of a large file (see
/// [`classify_file`]).
pub open spec fn file_reported(it: SmartItem, f: FileInfo) -> bool {
    &&& !in_global_blocklist(ascii_lower(f.path@))
    &&& if volume_system_file(ascii_lower(f.path@)) {
        file_item(it, f, SmartCategory::LargeFiles, SmartAction::Review, "Windows 系统专用文件，不可迁移"@, SmartRisk::Blocked, false)
    } else {
        match large_file_rule(ascii_lower(f.path@)) {
            Some((rule, risk, c)) => file_item(it, f, c, recommendation_for(c), rule, risk, risk == SmartRisk::Safe
                && recommendation_for(c) != SmartAction::Review),
            None => file_item(it, f, SmartCategory::LargeFiles, SmartAction::Review, ">= 512MB 单文件"@, SmartRisk::Unknown, false),
        }
    }
}

/// The item is what the report makes of a directory under the scan root
/// (see [`dir_rule`]).
pub open spec fn dir_reported(it: SmartItem, node: DirectoryNode, root: Seq<char>) -> bool {
    match dir_rule(node, root) {
        Some((c, rule, risk)) => dir_item(it, node, c, rule, risk),
        None => false,
    }
}

/// The item is what the report makes of one of the directories, or of one
/// of the files of at least [`LARGE_FILE_THRESHOLD`].
pub open spec fn reported_from(it: SmartItem, nodes: Seq<DirectoryNode>, files: Seq<FileInfo>, root: Seq<char>) -> bool {
    ||| exists|j: int| 0 <= j < nodes.len() && dir_reported(it, #[trigger] nodes[j], root)
    ||| exists|j: int| 0 <= j < files.len() && (#[trigger] files[j]).size >= LARGE_FILE_THRESHOLD && file_reported(it, files[j])
}

/// The item for one large file, or none when it lies in the blocklist: a
/// file only Windows uses is blocked and for review; a file under a
/// [`large_file_rule`] gets the rule's category and risk; any other is a
/// large file of unknown risk, for review.
fn classify_file(f: &FileInfo) -> (r: Option<SmartItem>)
    ensures
        r matches Some(it) ==> item_ok(it) && it.size == f.size && it.path == f.path && it.recommendation
            == recommendation_for(it.category),
        in_global_blocklist(ascii_lower(f.path@)) ==> r is None,
        !in_global_blocklist(ascii_lower(f.path@)) ==> (r matches Some(it) && file_reported(it, *f)),
{
    proof {
        reveal(item_ok);
    }
    let path_lower = to_ascii_lowercase(f.path.as_str());
    if is_in_global_blocklist(path_lower.as_str()) {
        return None;
    }
    let name = match file_name_of(f.path.as_str()) {
        Some(n) => n,
        None => f.name.clone(),
    };
    if is_volume_system_file(path_lower.as_str()) {
        return Some(SmartItem {
            path: f.path.clone(),
            name,
            size: f.size,
            file_count: 1,
            category: SmartCategory::LargeFiles,
            recommendation: SmartAction::Review,
            risk: SmartRisk::Blocked,
            rule: owned("Windows 系统专用文件，不可迁移"),
            default_selected: false,
        });
    }
    match classify_large_file(path_lower.as_str()) {
        Some((rule, risk, category)) => {
            let recommendation = group_recommendation(category);
            let default_selected = risk == SmartRisk::Safe && recommendation != SmartAction::Review;
            return Some(SmartItem {
                path: f.path.clone(),
                name,
                size: f.size,
                file_count: 1,
                category,
                recommendation,
                risk,
                rule: owned(rule),
                default_selected,
            });
        },
        None => {},
    }
    Some(SmartItem {
        path: f.path.clone(),
        name,
        size: f.size,
        file_count: 1,
        category: SmartCategory::LargeFiles,
        recommendation: SmartAction::Review,
        risk: SmartRisk::Unknown,
        rule: owned(">= 512MB 单文件"),
        default_selected: false,
    })
}

/// The slot of a category among the four groups.
pub open spec fn category_slot(c: SmartCategory) -> int {
    match c {
        SmartCategory::AppCache => 0,
        SmartCategory::DevTools => 1,
        SmartCategory::TempFiles => 2,
        SmartCategory::LargeFiles => 3,
    }
}

fn slot_of(c: SmartCategory) -> (r: usize)
    ensures
        r == category_slot(c),
{
    match c {
        SmartCategory::AppCache => 0,
        SmartCategory::DevTools => 1,
        SmartCategory::TempFiles => 2,
        SmartCategory::LargeFiles => 3,
    }
}

fn category_at(slot: usize) -> (r: SmartCategory)
    requires
        slot < 4,
    ensures
        category_slot(r) == slot,
{
    if slot == 0 {
        SmartCategory::AppCache
    } else if slot == 1 {
        SmartCategory::DevTools
    } else if slot == 2 {
        SmartCategory::TempFiles
    } else {
        SmartCategory::LargeFiles
    }
}

/// A bucket holds only items of the category in its slot, each keeping
/// [`item_ok`].
pub open spec fn bucket_ok(b: Seq<SmartItem>, slot: int) -> bool {
    forall|j: int| 0 <= j < b.len() ==> item_ok(#[trigger] b[j]) && category_slot(b[j].category) == slot
}

proof fn lemma_bucket_ok_intro(c: Seq<SmartItem>, s: int)
    requires
        forall|j: int| 0 <= j < c.len() ==> item_ok(#[trigger] c[j]) && category_slot(c[j].category) == s,
    ensures
        bucket_ok(c, s),
{
}

/// Every item keeps [`item_ok`] and has the category `c`.
pub open spec fn all_items_ok(s: Seq<SmartItem>, c: SmartCategory) -> bool {
    forall|i: int| 0 <= i < s.len() ==> item_ok(#[trigger] s[i]) && s[i].category == c
}

proof fn lemma_all_items_ok_intro(s: Seq<SmartItem>, c: SmartCategory)
    requires
        forall|i: int| 0 <= i < s.len() ==> item_ok(#[trigger] s[i]) && s[i].category == c,
    ensures
        all_items_ok(s, c),
{
}

proof fn lemma_slot_unique(a: SmartCategory, b: SmartCategory)
    requires
        category_slot(a) == category_slot(b),
    ensures
        a == b,
{
}

/// Total size of items (saturating).
pub open spec fn items_size(s: Seq<SmartItem>) -> int
    decreases s.len(),
{
    if s.len() == 0 {
        0
    } else {
        sat_u64(items_size(s.drop_last()) + s.last().size)
    }
}

/// Total size of the items selected by default (saturating).
pub open spec fn items_selected_size(s: Seq<SmartItem>) -> int
    decreases s.len(),
{
    if s.len() == 0 {
        0
    } else {
        sat_u64(items_selected_size(s.drop_last()) + (if s.last().default_selected { s.last().size as int } else { 0 }))
    }
}

/// Total of the groups' sizes (saturating).
pub open spec fn groups_total(s: Seq<SmartGroup>) -> int
    decreases s.len(),
{
    if s.len() == 0 {
        0
    } else {
        sat_u64(groups_total(s.drop_last()) + s.last().total_size)
    }
}

/// Total of the groups' default selections (saturating).
pub open spec fn groups_selected(s: Seq<SmartGroup>) -> int
    decreases s.len(),
{
    if s.len() == 0 {
        0
    } else {
        sat_u64(groups_selected(s.drop_last()) + s.last().selected_size)
    }
}

/// One group of a report: items of its category only, each keeping
/// [`item_ok`], largest first, at most [`MAX_GROUP_ITEMS`] of them, and its
/// totals and recommendation computed from them.
pub open spec fn group_ok(g: SmartGroup) -> bool {
    &&& g.items@.len() > 0
    &&& g.items@.len() <= MAX_GROUP_ITEMS
    &&& g.item_count == g.items@.len()
    &&& sorted_desc(g.items@)
    &&& g.recommendation == recommendation_for(g.category)
    &&& g.total_size == items_size(g.items@)
    &&& g.selected_size == items_selected_size(g.items@)
    &&& all_items_ok(g.items@, g.category)
}

/// The group holds the item, or is full with items all at least as large.
pub open spec fn kept_or_full(g: SmartGroup, x: SmartItem) -> bool {
    ||| g.items@.contains(x)
    ||| (g.items@.len() == MAX_GROUP_ITEMS && forall|k: int| 0 <= k < g.items@.len() ==> g.items@[k].size >= x.size)
}

/// Total size of the items and of those selected by default (saturating).
fn item_totals(items: &Vec<SmartItem>) -> (r: (u64, u64))
    ensures
        r.0 == items_size(items@),
        r.1 == items_selected_size(items@),
{
    let mut total: u64 = 0;
    let mut selected: u64 = 0;
    let mut i: usize = 0;
    while i < items.len()
        invariant
            i <= items.len(),
            total == items_size(items@.take(i as int)),
            selected == items_selected_size(items@.take(i as int)),
        decreases items.len() - i,
    {
        proof {
            assert(items@.take(i as int + 1).drop_last() =~= items@.take(i as int));
        }
        total = total.saturating_add(items[i].size);
        if items[i].default_selected {
            selected = selected.saturating_add(items[i].size);
        }
        i = i + 1;
    }
    assert(items@.take(items.len() as int) =~= items@);
    (total, selected)
}

/// Files an item in the bucket of its category.
fn push_to_bucket(buckets: &mut Vec<Vec<SmartItem>>, item: SmartItem)
    requires
        old(buckets)@.len() == 4,
        forall|s: int| 0 <= s < 4 ==> #[trigger] bucket_ok(old(buckets)@[s]@, s),
        item_ok(item),
    ensures
        final(buckets)@.len() == 4,
        forall|s: int| 0 <= s < 4 ==> #[trigger] bucket_ok(final(buckets)@[s]@, s),
        forall|s: int| 0 <= s < 4 ==> #[trigger] final(buckets)@[s]@ == old(buckets)@[s]@ || final(buckets)@[s]@
            == old(buckets)@[s]@.push(item),
        final(buckets)@[category_slot(item.category)]@ == old(buckets)@[category_slot(item.category)]@.push(item),
        forall|s: int| 0 <= s < 4 && s != category_slot(item.category) ==> #[trigger] final(buckets)@[s]@ == old(buckets)@[s]@,
{
    let slot = slot_of(item.category);
    let ghost before = buckets@;
    let ghost it = item;
    let mut bucket: Vec<SmartItem> = Vec::new();
    std::mem::swap(&mut bucket, &mut buckets[slot]);
    assert(bucket@ == before[slot as int]@);
    bucket.push(item);
    assert(bucket@ == before[slot as int]@.push(it));
    buckets.set(slot, bucket);
    proof {
        lemma_bucket_push(before[slot as int]@, it, slot as int);
        assert forall|s: int| 0 <= s < 4 implies #[trigger] bucket_ok(buckets@[s]@, s) by {
            if s != slot {
                assert(buckets@[s] == before[s]);
            }
        }
    }
}

proof fn lemma_bucket_push(b: Seq<SmartItem>, it: SmartItem, s: int)
    requires
        bucket_ok(b, s),
        item_ok(it),
        category_slot(it.category) == s,
    ensures
        bucket_ok(b.push(it), s),
{
    let c = b.push(it);
    assert forall|j: int| 0 <= j < c.len() implies item_ok(#[trigger] c[j]) && category_slot(c[j].category) == s by {
        if j < b.len() {
            assert(c[j] == b[j]);
            assert(item_ok(b[j]));
            assert(item_ok(c[j]));
            assert(category_slot(c[j].category) == s);
        } else {
            assert(c[j] == it);
            assert(item_ok(c[j]));
            assert(category_slot(c[j].category) == s);
        }
    }
    lemma_bucket_ok_intro(c, s);
}

proof fn lemma_items_ok_permuted(a: Seq<SmartItem>, b: Seq<SmartItem>, c: SmartCategory)
    requires
        all_items_ok(a, c),
        a.to_multiset() == b.to_multiset(),
    ensures
        all_items_ok(b, c),
{
    a.to_multiset_ensures();
    b.to_multiset_ensures();
    assert forall|i: int| 0 <= i < b.len() implies item_ok(#[trigger] b[i]) && b[i].category == c by {
        assert(b.to_multiset().count(b[i]) > 0);
        assert(a.contains(b[i]));
        let k = choose|k: int| 0 <= k < a.len() && a[k] == b[i];
        assert(item_ok(a[k]) && a[k].category == c);
    }
    lemma_all_items_ok_intro(b, c);
}

proof fn lemma_items_ok_prefix(a: Seq<SmartItem>, n: int, c: SmartCategory)
    requires
        all_items_ok(a, c),
        0 <= n <= a.len(),
    ensures
        all_items_ok(a.subrange(0, n), c),
{
    let b = a.subrange(0, n);
    assert forall|i: int| 0 <= i < b.len() implies item_ok(#[trigger] b[i]) && b[i].category == c by {
        assert(b[i] == a[i]);
        assert(item_ok(a[i]) && a[i].category == c);
    }
    lemma_all_items_ok_intro(b, c);
}

fn make_group(category: SmartCategory, items: Vec<SmartItem>) -> (g: SmartGroup)
    requires
        items@.len() > 0,
        all_items_ok(items@, category),
    ensures
        group_ok(g),
        g.category == category,
        forall|i: int| 0 <= i < g.items@.len() ==> items@.contains(#[trigger] g.items@[i]),
        forall|i: int| 0 <= i < items@.len() ==> #[trigger] kept_or_full(g, items@[i]),
{
    let ghost input = items@;
    let mut items = items;
    let ghost before = items@;
    sort_by_size_desc(&mut items);
    proof {
        lemma_items_ok_permuted(before, items@, category);
    }
    let ghost sorted = items@;
    if items.len() > MAX_GROUP_ITEMS {
        items.truncate(MAX_GROUP_ITEMS);
        proof {
            lemma_items_ok_prefix(sorted, MAX_GROUP_ITEMS as int, category);
        }
    }
    proof {
        before.to_multiset_ensures();
        sorted.to_multiset_ensures();
        assert forall|i: int| 0 <= i < input.len() implies (items@.contains(#[trigger] input[i]) || (items@.len()
            == MAX_GROUP_ITEMS && forall|k: int| 0 <= k < items@.len() ==> items@[k].size >= input[i].size)) by {
            assert(before.contains(input[i]));
            assert(before.to_multiset().count(input[i]) > 0);
            assert(sorted.to_multiset().count(input[i]) > 0);
            assert(sorted.contains(input[i]));
            let p = choose|p: int| 0 <= p < sorted.len() && sorted[p] == input[i];
            if p < items@.len() {
                assert(items@[p] == sorted[p]);
            } else {
                assert forall|k: int| 0 <= k < items@.len() implies items@[k].size >= input[i].size by {
                    assert(items@[k] == sorted[k]);
                    assert(sorted[k].size_key() >= sorted[p].size_key());
                }
            }
        }
    }
    proof {
        assert forall|i: int, j: int| 0 <= i < j < items@.len() implies items@[i].size_key() >= items@[j].size_key() by {
            assert(items@[i] == sorted[i]);
            assert(items@[j] == sorted[j]);
        }
    }
    proof {
        before.to_multiset_ensures();
        sorted.to_multiset_ensures();
        assert forall|i: int| 0 <= i < items@.len() implies input.contains(#[trigger] items@[i]) by {
            assert(items@[i] == sorted[i]);
            assert(sorted.to_multiset().count(sorted[i]) > 0);
        }
    }
    let (total, selected) = item_totals(&items);
    let n = items.len();
    let g = SmartGroup {
        category,
        recommendation: group_recommendation(category),
        total_size: total,
        item_count: n,
        selected_size: selected,
        items,
    };
    assert(sorted_desc(g.items@));
    assert forall|i: int| 0 <= i < input.len() implies #[trigger] kept_or_full(g, input[i]) by {}
    g
}

/// Every item of the buckets is what the report makes of a directory or a
/// large file of the index.
pub open spec fn buckets_reported(b: Seq<Vec<SmartItem>>, nodes: Seq<DirectoryNode>, files: Seq<FileInfo>, root: Seq<char>) -> bool {
    forall|s: int, j: int| 0 <= s < b.len() && 0 <= j < b[s]@.len() ==> reported_from(#[trigger] b[s]@[j], nodes, files, root)
}

proof fn lemma_push_keeps_reported(
    old_b: Seq<Vec<SmartItem>>,
    new_b: Seq<Vec<SmartItem>>,
    item: SmartItem,
    nodes: Seq<DirectoryNode>,
    files: Seq<FileInfo>,
    root: Seq<char>,
)
    requires
        old_b.len() == 4,
        new_b.len() == 4,
        buckets_reported(old_b, nodes, files, root),
        reported_from(item, nodes, files, root),
        forall|s: int| 0 <= s < 4 ==> #[trigger] new_b[s]@ == old_b[s]@ || new_b[s]@ == old_b[s]@.push(item),
    ensures
        buckets_reported(new_b, nodes, files, root),
{
    assert forall|s: int, j: int| 0 <= s < new_b.len() && 0 <= j < new_b[s]@.len() implies reported_from(
        #[trigger] new_b[s]@[j],
        nodes,
        files,
        root,
    ) by {
        if new_b[s]@ == old_b[s]@ {
        } else if j < old_b[s]@.len() {
            assert(new_b[s]@[j] == old_b[s]@[j]);
        } else {
            assert(new_b[s]@[j] == item);
        }
    }
}

/// The category a reportable directory gets (see [`dir_rule`]).
pub open spec fn dir_category(n: DirectoryNode, root: Seq<char>) -> SmartCategory {
    match dir_rule(n, root) {
        Some((c, _, _)) => c,
        None => SmartCategory::LargeFiles,
    }
}

/// The category a large file gets (see [`file_reported`]).
pub open spec fn file_category(f: FileInfo) -> SmartCategory {
    if volume_system_file(ascii_lower(f.path@)) {
        SmartCategory::LargeFiles
    } else {
        match large_file_rule(ascii_lower(f.path@)) {
            Some((_, _, c)) => c,
            None => SmartCategory::LargeFiles,
        }
    }
}

/// The bucket of category `c` holds an item of this path and size.
pub open spec fn in_buckets(b: Seq<Vec<SmartItem>>, path: Seq<char>, size: u64, c: SmartCategory) -> bool {
    exists|k: int|
        0 <= k < b[category_slot(c)]@.len() && #[trigger] b[category_slot(c)]@[k].path@ == path
            && b[category_slot(c)]@[k].size == size && b[category_slot(c)]@[k].category == c
}

/// The group of category `c` lists this path, or is full with items all
/// at least `size` large.
pub open spec fn covered(groups: Seq<SmartGroup>, path: Seq<char>, size: u64, c: SmartCategory) -> bool {
    exists|i: int|
        0 <= i < groups.len() && #[trigger] groups[i].category == c && ((exists|k: int|
            0 <= k < groups[i].items@.len() && #[trigger] groups[i].items@[k].path@ == path) || (groups[i].items@.len()
            == MAX_GROUP_ITEMS && forall|k: int| 0 <= k < groups[i].items@.len() ==> groups[i].items@[k].size >= size))
}

/// The report shows the entry (see [`covered`]), or it lies inside a
/// reportable directory of the index that the report shows.
pub open spec fn report_shows(
    groups: Seq<SmartGroup>,
    nodes: Seq<DirectoryNode>,
    root: Seq<char>,
    path: Seq<char>,
    size: u64,
    c: SmartCategory,
) -> bool {
    ||| covered(groups, path, size, c)
    ||| exists|j: int|
        0 <= j < nodes.len() && dir_rule(nodes[j], root) is Some && #[trigger] inside_dir(path, nodes[j].path@)
            && covered(groups, nodes[j].path@, nodes[j].size, dir_category(nodes[j], root))
}

/// [`report_shows`] for the buckets, before the groups are cut to size.
pub open spec fn bucket_shows(
    b: Seq<Vec<SmartItem>>,
    nodes: Seq<DirectoryNode>,
    root: Seq<char>,
    path: Seq<char>,
    size: u64,
    c: SmartCategory,
) -> bool {
    ||| in_buckets(b, path, size, c)
    ||| exists|j: int|
        0 <= j < nodes.len() && dir_rule(nodes[j], root) is Some && #[trigger] inside_dir(path, nodes[j].path@)
            && in_buckets(b, nodes[j].path@, nodes[j].size, dir_category(nodes[j], root))
}

/// Every reported directory path is the path of a reportable directory of
/// the index whose item is in the buckets.
pub open spec fn classified_ok(
    classified: Seq<String>,
    b: Seq<Vec<SmartItem>>,
    nodes: Seq<DirectoryNode>,
    root: Seq<char>,
) -> bool {
    forall|m: int|
        0 <= m < classified.len() ==> exists|j: int|
            0 <= j < nodes.len() && dir_rule(nodes[j], root) is Some && #[trigger] classified[m]@ == nodes[j].path@
                && in_buckets(b, nodes[j].path@, nodes[j].size, dir_category(nodes[j], root))
}

/// Buckets that only grew keep every item.
proof fn lemma_in_buckets_grow(a: Seq<Vec<SmartItem>>, b: Seq<Vec<SmartItem>>, x: SmartItem)
    requires
        a.len() == 4,
        b.len() == 4,
        forall|s: int| 0 <= s < 4 ==> #[trigger] b[s]@ == a[s]@ || b[s]@ == a[s]@.push(x),
    ensures
        forall|path: Seq<char>, size: u64, c: SmartCategory| #[trigger] in_buckets(a, path, size, c) ==> in_buckets(
            b,
            path,
            size,
            c,
        ),
{
    assert forall|path: Seq<char>, size: u64, c: SmartCategory| #[trigger] in_buckets(a, path, size, c) implies in_buckets(
        b,
        path,
        size,
        c,
    ) by {
        let sl = category_slot(c);
        let k = choose|k: int|
            0 <= k < a[sl]@.len() && #[trigger] a[sl]@[k].path@ == path && a[sl]@[k].size == size
                && a[sl]@[k].category == c;
        assert(0 <= sl < 4);
        assert(b[sl]@ == a[sl]@ || b[sl]@ == a[sl]@.push(x));
        assert(b[sl]@[k] == a[sl]@[k]);
    }
}

/// The directory `nodes[j]` has its item in the buckets, or lies inside a
/// reported directory.
pub open spec fn dir_placed(b: Seq<Vec<SmartItem>>, cl: Seq<String>, nodes: Seq<DirectoryNode>, root: Seq<char>, j: int) -> bool {
    in_buckets(b, nodes[j].path@, nodes[j].size, dir_category(nodes[j], root)) || inside_some(
        nodes[j].path@,
        crate::rules::texts(cl),
    )
}

/// The large file `files[f]` has its item in the buckets, or lies inside a
/// reported directory.
pub open spec fn file_placed(b: Seq<Vec<SmartItem>>, cl: Seq<String>, files: Seq<FileInfo>, f: int) -> bool {
    in_buckets(b, files[f].path@, files[f].size, file_category(files[f])) || inside_some(
        files[f].path@,
        crate::rules::texts(cl),
    )
}

proof fn lemma_inside_some_push(cl: Seq<String>, x: String)
    ensures
        forall|p: Seq<char>| #[trigger] inside_some(p, crate::rules::texts(cl)) ==> inside_some(
            p,
            crate::rules::texts(cl.push(x)),
        ),
{
    assert forall|p: Seq<char>| #[trigger] inside_some(p, crate::rules::texts(cl)) implies inside_some(
        p,
        crate::rules::texts(cl.push(x)),
    ) by {
        let t = crate::rules::texts(cl);
        let k = choose|k: int| 0 <= k < t.len() && inside_dir(p, #[trigger] t[k]);
        assert(crate::rules::texts(cl.push(x))[k] == t[k]);
    }
}

/// Some entry of the ranking points at index `j`.
spec fn has_index(r: Seq<SizedIndex>, j: int) -> bool {
    exists|e: int| 0 <= e < r.len() && (#[trigger] r[e]).index == j
}

proof fn lemma_covered_push(a: Seq<SmartGroup>, g: SmartGroup, path: Seq<char>, size: u64, c: SmartCategory)
    requires
        covered(a, path, size, c),
    ensures
        covered(a.push(g), path, size, c),
{
    let i = choose|i: int|
        0 <= i < a.len() && #[trigger] a[i].category == c && ((exists|k: int|
            0 <= k < a[i].items@.len() && #[trigger] a[i].items@[k].path@ == path) || (a[i].items@.len() == MAX_GROUP_ITEMS
            && forall|k: int| 0 <= k < a[i].items@.len() ==> a[i].items@[k].size >= size));
    assert(a.push(g)[i] == a[i]);
    if exists|k: int| 0 <= k < a[i].items@.len() && #[trigger] a[i].items@[k].path@ == path {
        let k = choose|k: int| 0 <= k < a[i].items@.len() && #[trigger] a[i].items@[k].path@ == path;
        assert(a.push(g)[i].items@[k].path@ == path);
    }
}

proof fn lemma_report_complete(
    groups: Seq<SmartGroup>,
    full_b: Seq<Vec<SmartItem>>,
    cl: Seq<String>,
    nv: Seq<DirectoryNode>,
    fv: Seq<FileInfo>,
    rv: Seq<char>,
)
    requires
        forall|path: Seq<char>, size: u64, c: SmartCategory| #[trigger] in_buckets(full_b, path, size, c) ==> covered(
            groups,
            path,
            size,
            c,
        ),
        classified_ok(cl, full_b, nv, rv),
    ensures
        forall|j: int| #[trigger] dir_placed(full_b, cl, nv, rv, j) ==> report_shows(
            groups,
            nv,
            rv,
            nv[j].path@,
            nv[j].size,
            dir_category(nv[j], rv),
        ),
        forall|f: int| #[trigger] file_placed(full_b, cl, fv, f) ==> report_shows(
            groups,
            nv,
            rv,
            fv[f].path@,
            fv[f].size,
            file_category(fv[f]),
        ),
{
    assert forall|j: int| #[trigger] dir_placed(full_b, cl, nv, rv, j) implies report_shows(
        groups,
        nv,
        rv,
        nv[j].path@,
        nv[j].size,
        dir_category(nv[j], rv),
    ) by {
        lemma_inside_shown(groups, full_b, cl, nv, rv, nv[j].path@);
    }
    assert forall|f: int| #[trigger] file_placed(full_b, cl, fv, f) implies report_shows(
        groups,
        nv,
        rv,
        fv[f].path@,
        fv[f].size,
        file_category(fv[f]),
    ) by {
        lemma_inside_shown(groups, full_b, cl, nv, rv, fv[f].path@);
    }
}

proof fn lemma_inside_shown(
    groups: Seq<SmartGroup>,
    full_b: Seq<Vec<SmartItem>>,
    cl: Seq<String>,
    nv: Seq<DirectoryNode>,
    rv: Seq<char>,
    p: Seq<char>,
)
    requires
        forall|path: Seq<char>, size: u64, c: SmartCategory| #[trigger] in_buckets(full_b, path, size, c) ==> covered(
            groups,
            path,
            size,
            c,
        ),
        classified_ok(cl, full_b, nv, rv),
    ensures
        inside_some(p, crate::rules::texts(cl)) ==> exists|j: int|
            0 <= j < nv.len() && dir_rule(nv[j], rv) is Some && #[trigger] inside_dir(p, nv[j].path@) && covered(
                groups,
                nv[j].path@,
                nv[j].size,
                dir_category(nv[j], rv),
            ),
{
    if inside_some(p, crate::rules::texts(cl)) {
        let t = crate::rules::texts(cl);
        let k = choose|k: int| 0 <= k < t.len() && inside_dir(p, #[trigger] t[k]);
        assert(t[k] == cl[k]@);
        let j = choose|j: int|
            0 <= j < nv.len() && dir_rule(nv[j], rv) is Some && #[trigger] cl[k]@ == nv[j].path@ && in_buckets(
                full_b,
                nv[j].path@,
                nv[j].size,
                dir_category(nv[j], rv),
            );
        assert(inside_dir(p, nv[j].path@));
    }
}

/// A reordering of the groups keeps what they cover.
proof fn lemma_covered_permuted(a: Seq<SmartGroup>, b: Seq<SmartGroup>, path: Seq<char>, size: u64, c: SmartCategory)
    requires
        a.to_multiset() == b.to_multiset(),
        covered(a, path, size, c),
    ensures
        covered(b, path, size, c),
{
    a.to_multiset_ensures();
    b.to_multiset_ensures();
    let i = choose|i: int|
        0 <= i < a.len() && #[trigger] a[i].category == c && ((exists|k: int|
            0 <= k < a[i].items@.len() && #[trigger] a[i].items@[k].path@ == path) || (a[i].items@.len() == MAX_GROUP_ITEMS
            && forall|k: int| 0 <= k < a[i].items@.len() ==> a[i].items@[k].size >= size));
    assert(a.contains(a[i]));
    assert(a.to_multiset().count(a[i]) > 0);
    assert(b.contains(a[i]));
    let j = choose|j: int| 0 <= j < b.len() && b[j] == a[i];
    assert(b[j].category == c);
    if exists|k: int| 0 <= k < a[i].items@.len() && #[trigger] a[i].items@[k].path@ == path {
        let k = choose|k: int| 0 <= k < a[i].items@.len() && #[trigger] a[i].items@[k].path@ == path;
        assert(b[j].items@[k].path@ == path);
    }
}

/// The report over a scan index, as of `generated_at_ms`: directories
/// largest first, each reported unless it lies inside one already reported,
/// then the large files of at least [`LARGE_FILE_THRESHOLD`] outside the
/// reported directories; grouped by category (each group keeps its
/// largest items, up to [`MAX_GROUP_ITEMS`]), groups ordered by what they
/// free by default, largest first. Every directory a rule matches, and
/// every large file outside the blocklist, is shown (see
/// [`report_shows`]).
pub fn build_report_at(indexed: &IndexedScanResult, generated_at_ms: u64) -> (r: SmartScanReport)
    ensures
        forall|j: int|
            0 <= j < indexed.nodes_view().len() && dir_rule(indexed.nodes_view()[j], indexed.root_view()) is Some
                ==> #[trigger] report_shows(
                r.groups@,
                indexed.nodes_view(),
                indexed.root_view(),
                indexed.nodes_view()[j].path@,
                indexed.nodes_view()[j].size,
                dir_category(indexed.nodes_view()[j], indexed.root_view()),
            ),
        forall|f: int|
            0 <= f < indexed.large_files_view().len() && indexed.large_files_view()[f].size >= LARGE_FILE_THRESHOLD
                && !in_global_blocklist(ascii_lower(indexed.large_files_view()[f].path@)) ==> #[trigger] report_shows(
                r.groups@,
                indexed.nodes_view(),
                indexed.root_view(),
                indexed.large_files_view()[f].path@,
                indexed.large_files_view()[f].size,
                file_category(indexed.large_files_view()[f]),
            ),
        r.root_path@ == indexed.root_view(),
        r.generated_at_ms == generated_at_ms,
        r.analysis_duration_ms == 0,
        sorted_desc(r.groups@),
        r.groups@.len() <= 4,
        forall|i: int| 0 <= i < r.groups@.len() ==> #[trigger] group_ok(r.groups@[i]),
        r.potential_savings == groups_total(r.groups@),
        r.default_savings == groups_selected(r.groups@),
        forall|i: int, k: int| 0 <= i < r.groups@.len() && 0 <= k < r.groups@[i].items@.len() ==> reported_from(
            #[trigger] r.groups@[i].items@[k],
            indexed.nodes_view(),
            indexed.large_files_view(),
            indexed.root_view(),
        ),
{
    let ghost nv = indexed.nodes_view();
    let ghost fv = indexed.large_files_view();
    let ghost rv = indexed.root_view();
    let root_path = indexed.root_path();
    let mut buckets: Vec<Vec<SmartItem>> = Vec::new();
    buckets.push(Vec::new());
    buckets.push(Vec::new());
    buckets.push(Vec::new());
    buckets.push(Vec::new());
    let mut classified: Vec<String> = Vec::new();

    // directories, largest first (ties keep index order)
    let all = indexed.iter_nodes();
    let mut order: Vec<(u64, usize)> = Vec::new();
    let mut k: usize = 0;
    while k < all.len()
        invariant
            k <= all.len(),
            order@.len() == k,
            forall|j: int| 0 <= j < order@.len() ==> (#[trigger] order@[j]).1 < all.len(),
            forall|j: int| 0 <= j < order@.len() ==> (#[trigger] order@[j]).1 == j,
        decreases all.len() - k,
    {
        order.push((all[k].size, k));
        k = k + 1;
    }
    let mut ranked: Vec<SizedIndex> = Vec::new();
    let mut q: usize = 0;
    while q < order.len()
        invariant
            q <= order.len(),
            order@.len() == all.len(),
            ranked@.len() == q,
            forall|j: int| 0 <= j < order@.len() ==> (#[trigger] order@[j]).1 < all.len(),
            forall|j: int| 0 <= j < order@.len() ==> (#[trigger] order@[j]).1 == j,
            forall|j: int| 0 <= j < ranked@.len() ==> (#[trigger] ranked@[j]).index < all.len(),
            forall|j: int| 0 <= j < ranked@.len() ==> (#[trigger] ranked@[j]).index == j,
        decreases order.len() - q,
    {
        ranked.push(SizedIndex { size: order[q].0, index: order[q].1 });
        q = q + 1;
    }
    let ghost pre_rank = ranked@;
    sort_by_size_desc(&mut ranked);
    proof {
        pre_rank.to_multiset_ensures();
        ranked@.to_multiset_ensures();
        assert forall|j: int| 0 <= j < ranked@.len() implies (#[trigger] ranked@[j]).index < all.len() by {
            assert(ranked@.to_multiset().count(ranked@[j]) > 0);
            assert(pre_rank.contains(ranked@[j]));
        }
        assert forall|j: int| 0 <= j < all@.len() implies #[trigger] has_index(ranked@, j) by {
            assert(pre_rank[j].index == j);
            assert(pre_rank.contains(pre_rank[j]));
            assert(pre_rank.to_multiset().count(pre_rank[j]) > 0);
            assert(ranked@.contains(pre_rank[j]));
            let e = choose|e: int| 0 <= e < ranked@.len() && ranked@[e] == pre_rank[j];
            assert(ranked@[e].index == j);
        }
    }
    let ghost ranked_all = ranked@;
    let mut d: usize = 0;
    while d < ranked.len()
        invariant
            d <= ranked.len(),
            buckets@.len() == 4,
            forall|j: int| 0 <= j < ranked@.len() ==> (#[trigger] ranked@[j]).index < all.len(),
            forall|s: int| 0 <= s < 4 ==> #[trigger] bucket_ok(buckets@[s]@, s),
            all@ == nv,
            root_path@ == rv,
            buckets_reported(buckets@, nv, fv, rv),
            ranked@ == ranked_all,
            classified_ok(classified@, buckets@, nv, rv),
            forall|e: int|
                0 <= e < d && dir_rule(nv[ranked_all[e].index as int], rv) is Some ==> #[trigger] dir_placed(
                    buckets@,
                    classified@,
                    nv,
                    rv,
                    ranked_all[e].index as int,
                ),
        decreases ranked.len() - d,
    {
        let node = &all[ranked[d].index];
        let ghost jd = ranked@[d as int].index as int;
        let ghost b0 = buckets@;
        let ghost cl0 = classified@;
        match classify_dir(node, root_path) {
            Some(item) => {
                if !is_inside_classified(item.path.as_str(), &classified) {
                    let ghost xs = item.path;
                    classified.push(item.path.clone());
                    let ghost old_b = buckets@;
                    let ghost it = item;
                    proof {
                        let j = ranked@[d as int].index as int;
                        assert(dir_reported(it, nv[j], rv));
                        assert(reported_from(it, nv, fv, rv));
                    }
                    push_to_bucket(&mut buckets, item);
                    proof {
                        lemma_push_keeps_reported(old_b, buckets@, it, nv, fv, rv);
                        lemma_in_buckets_grow(old_b, buckets@, it);
                        lemma_inside_some_push(cl0, xs);
                        let sl = category_slot(it.category);
                        assert(it.category == dir_category(nv[jd], rv));
                        assert(buckets@[sl]@[old_b[sl]@.len() as int] == it);
                        assert(in_buckets(buckets@, nv[jd].path@, nv[jd].size, dir_category(nv[jd], rv)));
                        assert forall|m: int| 0 <= m < classified@.len() implies exists|j: int|
                            0 <= j < nv.len() && dir_rule(nv[j], rv) is Some && #[trigger] classified@[m]@
                                == nv[j].path@ && in_buckets(buckets@, nv[j].path@, nv[j].size, dir_category(nv[j], rv)) by {
                            if m < cl0.len() {
                                assert(classified@[m] == cl0[m]);
                                let j = choose|j: int|
                                    0 <= j < nv.len() && dir_rule(nv[j], rv) is Some && #[trigger] cl0[m]@ == nv[j].path@
                                        && in_buckets(b0, nv[j].path@, nv[j].size, dir_category(nv[j], rv));
                                assert(in_buckets(buckets@, nv[j].path@, nv[j].size, dir_category(nv[j], rv)));
                            } else {
                                assert(classified@[m]@ == nv[jd].path@);
                            }
                        }
                        assert forall|e: int|
                            0 <= e < d + 1 && dir_rule(nv[ranked_all[e].index as int], rv) is Some implies #[trigger] dir_placed(
                            buckets@,
                            classified@,
                            nv,
                            rv,
                            ranked_all[e].index as int,
                        ) by {
                            if e < d {
                                assert(dir_placed(b0, cl0, nv, rv, ranked_all[e].index as int));
                            }
                        }
                    }
                } else {
                    proof {
                        assert(dir_placed(buckets@, classified@, nv, rv, jd));
                    }
                }
            },
            None => {},
        }
        d = d + 1;
    }

    proof {
        assert forall|j: int| 0 <= j < nv.len() && dir_rule(nv[j], rv) is Some implies #[trigger] dir_placed(
            buckets@,
            classified@,
            nv,
            rv,
            j,
        ) by {
            assert(has_index(ranked_all, j));
            let e = choose|e: int| 0 <= e < ranked_all.len() && (#[trigger] ranked_all[e]).index == j;
            assert(dir_placed(buckets@, classified@, nv, rv, ranked_all[e].index as int));
        }
    }

    // large files
    let files = indexed.large_files_iter();
    let mut f: usize = 0;
    while f < files.len()
        invariant
            f <= files.len(),
            buckets@.len() == 4,
            forall|s: int| 0 <= s < 4 ==> #[trigger] bucket_ok(buckets@[s]@, s),
            files@ == fv,
            buckets_reported(buckets@, nv, fv, rv),
            classified_ok(classified@, buckets@, nv, rv),
            forall|j: int| 0 <= j < nv.len() && dir_rule(nv[j], rv) is Some ==> #[trigger] dir_placed(
                buckets@,
                classified@,
                nv,
                rv,
                j,
            ),
            forall|g: int|
                0 <= g < f && fv[g].size >= LARGE_FILE_THRESHOLD && !in_global_blocklist(ascii_lower(fv[g].path@))
                    ==> #[trigger] file_placed(buckets@, classified@, fv, g),
        decreases files.len() - f,
    {
        let file = &files[f];
        let ghost b0 = buckets@;
        if file.size >= LARGE_FILE_THRESHOLD && !is_inside_classified(file.path.as_str(), &classified) {
            match classify_file(file) {
                Some(item) => {
                    let ghost old_b = buckets@;
                    let ghost it = item;
                    proof {
                        assert(file_reported(it, fv[f as int]));
                        assert(reported_from(it, nv, fv, rv));
                    }
                    push_to_bucket(&mut buckets, item);
                    proof {
                        lemma_push_keeps_reported(old_b, buckets@, it, nv, fv, rv);
                        lemma_in_buckets_grow(old_b, buckets@, it);
                        let sl = category_slot(it.category);
                        assert(it.category == file_category(fv[f as int]));
                        assert(buckets@[sl]@[old_b[sl]@.len() as int] == it);
                        assert(in_buckets(buckets@, fv[f as int].path@, fv[f as int].size, file_category(fv[f as int])));
                        assert forall|m: int| 0 <= m < classified@.len() implies exists|j: int|
                            0 <= j < nv.len() && dir_rule(nv[j], rv) is Some && #[trigger] classified@[m]@
                                == nv[j].path@ && in_buckets(buckets@, nv[j].path@, nv[j].size, dir_category(nv[j], rv)) by {
                            let j = choose|j: int|
                                0 <= j < nv.len() && dir_rule(nv[j], rv) is Some && #[trigger] classified@[m]@ == nv[j].path@
                                    && in_buckets(b0, nv[j].path@, nv[j].size, dir_category(nv[j], rv));
                            assert(in_buckets(buckets@, nv[j].path@, nv[j].size, dir_category(nv[j], rv)));
                        }
                        assert forall|j: int| 0 <= j < nv.len() && dir_rule(nv[j], rv) is Some implies #[trigger] dir_placed(
                            buckets@,
                            classified@,
                            nv,
                            rv,
                            j,
                        ) by {
                            assert(dir_placed(b0, classified@, nv, rv, j));
                        }
                        assert(classified_ok(classified@, buckets@, nv, rv));
                        assert forall|g: int|
                            0 <= g < f + 1 && fv[g].size >= LARGE_FILE_THRESHOLD && !in_global_blocklist(
                                ascii_lower(fv[g].path@),
                            ) implies #[trigger] file_placed(buckets@, classified@, fv, g) by {
                            if g < f {
                                assert(file_placed(b0, classified@, fv, g));
                            }
                        }
                    }
                },
                None => {},
            }
        } else {
            proof {
                assert forall|g: int|
                    0 <= g < f + 1 && fv[g].size >= LARGE_FILE_THRESHOLD && !in_global_blocklist(
                        ascii_lower(fv[g].path@),
                    ) implies #[trigger] file_placed(buckets@, classified@, fv, g) by {
                    if g == f {
                        assert(inside_some(fv[g].path@, crate::rules::texts(classified@)));
                    }
                }
            }
        }
        f = f + 1;
    }

    // groups
    let ghost full_b = buckets@;
    let ghost cl = classified@;
    let mut groups: Vec<SmartGroup> = Vec::new();
    let mut slot: usize = 0;
    while slot < 4
        invariant
            slot <= 4,
            full_b.len() == 4,
            forall|s: int| slot <= s < 4 ==> #[trigger] buckets@[s] == full_b[s],
            forall|path: Seq<char>, size: u64, c: SmartCategory|
                category_slot(c) < slot && #[trigger] in_buckets(full_b, path, size, c) ==> covered(
                    groups@,
                    path,
                    size,
                    c,
                ),
            buckets@.len() == 4,
            groups@.len() <= slot,
            forall|s: int| slot <= s < 4 ==> #[trigger] bucket_ok(buckets@[s]@, s),
            forall|i: int| 0 <= i < groups@.len() ==> group_ok(#[trigger] groups@[i]) && category_slot(groups@[i].category) < slot,
            forall|i: int, j: int| 0 <= i < j < groups@.len() ==> category_slot(groups@[i].category) < category_slot(groups@[j].category),
            forall|s: int, j: int| slot <= s < 4 && 0 <= j < buckets@[s]@.len() ==> reported_from(#[trigger] buckets@[s]@[j], nv, fv, rv),
            forall|i: int, k: int| 0 <= i < groups@.len() && 0 <= k < groups@[i].items@.len() ==> reported_from(
                #[trigger] groups@[i].items@[k],
                nv,
                fv,
                rv,
            ),
        decreases 4 - slot,
    {
        let ghost before = buckets@;
        let mut items: Vec<SmartItem> = Vec::new();
        std::mem::swap(&mut items, &mut buckets[slot]);
        proof {
            assert forall|s: int| slot < s < 4 implies #[trigger] bucket_ok(buckets@[s]@, s) by {
                assert(buckets@[s] == before[s]);
            }
            assert(bucket_ok(items@, slot as int));
            assert forall|s: int, j: int| slot < s < 4 && 0 <= j < buckets@[s]@.len() implies reported_from(
                #[trigger] buckets@[s]@[j],
                nv,
                fv,
                rv,
            ) by {
                assert(buckets@[s] == before[s]);
            }
            assert forall|j: int| 0 <= j < items@.len() implies reported_from(#[trigger] items@[j], nv, fv, rv) by {
                assert(items@[j] == before[slot as int]@[j]);
            }
        }
        if items.len() > 0 {
            let category = category_at(slot);
            proof {
                assert forall|i: int| 0 <= i < items@.len() implies item_ok(#[trigger] items@[i]) && items@[i].category == category by {
                    assert(item_ok(items@[i]) && category_slot(items@[i].category) == slot);
                    lemma_slot_unique(items@[i].category, category);
                }
                lemma_all_items_ok_intro(items@, category);
            }
            let ghost members = items@;
            let g = make_group(category, items);
            let ghost gv = g;
            let ghost old_groups = groups@;
            groups.push(g);
            proof {
                assert(members == full_b[slot as int]@);
                assert forall|path: Seq<char>, size: u64, c: SmartCategory|
                    category_slot(c) < slot + 1 && #[trigger] in_buckets(full_b, path, size, c) implies covered(
                    groups@,
                    path,
                    size,
                    c,
                ) by {
                    if category_slot(c) < slot {
                        lemma_covered_push(old_groups, gv, path, size, c);
                    } else {
                        lemma_slot_unique(c, category);
                        let k = choose|k: int|
                            0 <= k < full_b[category_slot(c)]@.len() && #[trigger] full_b[category_slot(c)]@[k].path@
                                == path && full_b[category_slot(c)]@[k].size == size && full_b[category_slot(c)]@[k].category
                                == c;
                        assert(kept_or_full(gv, members[k]));
                        let n = old_groups.len() as int;
                        assert(groups@[n] == gv);
                        if gv.items@.contains(members[k]) {
                            let k2 = choose|k2: int| 0 <= k2 < gv.items@.len() && gv.items@[k2] == members[k];
                            assert(groups@[n].items@[k2].path@ == path);
                        }
                    }
                }
                assert forall|i: int, k: int| 0 <= i < groups@.len() && 0 <= k < groups@[i].items@.len() implies reported_from(
                    #[trigger] groups@[i].items@[k],
                    nv,
                    fv,
                    rv,
                ) by {
                    if i < old_groups.len() {
                        assert(groups@[i] == old_groups[i]);
                    } else {
                        assert(members.contains(gv.items@[k]));
                        let w = choose|w: int| 0 <= w < members.len() && members[w] == gv.items@[k];
                        assert(reported_from(members[w], nv, fv, rv));
                    }
                }
            }
        }
        else {
            proof {
                assert forall|path: Seq<char>, size: u64, c: SmartCategory|
                    category_slot(c) < slot + 1 && #[trigger] in_buckets(full_b, path, size, c) implies covered(
                    groups@,
                    path,
                    size,
                    c,
                ) by {
                    if category_slot(c) == slot {
                        assert(full_b[slot as int]@.len() == 0);
                    }
                }
            }
        }
        slot = slot + 1;
    }
    let ghost pre_sort = groups@;
    sort_by_size_desc(&mut groups);
    proof {
        assert forall|path: Seq<char>, size: u64, c: SmartCategory| #[trigger] in_buckets(full_b, path, size, c) implies covered(
            groups@,
            path,
            size,
            c,
        ) by {
            assert(covered(pre_sort, path, size, c));
            lemma_covered_permuted(pre_sort, groups@, path, size, c);
        }
        lemma_report_complete(groups@, full_b, cl, nv, fv, rv);
        assert forall|j: int| 0 <= j < nv.len() && dir_rule(nv[j], rv) is Some implies #[trigger] report_shows(
            groups@,
            nv,
            rv,
            nv[j].path@,
            nv[j].size,
            dir_category(nv[j], rv),
        ) by {
            assert(dir_placed(full_b, cl, nv, rv, j));
        }
        assert forall|g: int|
            0 <= g < fv.len() && fv[g].size >= LARGE_FILE_THRESHOLD && !in_global_blocklist(ascii_lower(fv[g].path@))
                implies #[trigger] report_shows(groups@, nv, rv, fv[g].path@, fv[g].size, file_category(fv[g])) by {
            assert(file_placed(full_b, cl, fv, g));
        }
    }
    let ghost final_groups = groups@;
    proof {
        lemma_groups_permuted(pre_sort, groups@);
        pre_sort.to_multiset_ensures();
        groups@.to_multiset_ensures();
        assert forall|i: int, k: int| 0 <= i < groups@.len() && 0 <= k < groups@[i].items@.len() implies reported_from(
            #[trigger] groups@[i].items@[k],
            nv,
            fv,
            rv,
        ) by {
            assert(groups@.to_multiset().count(groups@[i]) > 0);
            assert(pre_sort.contains(groups@[i]));
            let w = choose|w: int| 0 <= w < pre_sort.len() && pre_sort[w] == groups@[i];
            assert(pre_sort[w].items@[k] == groups@[i].items@[k]);
        }
    }
    let mut potential: u64 = 0;
    let mut default_savings: u64 = 0;
    let mut i: usize = 0;
    while i < groups.len()
        invariant
            i <= groups.len(),
            potential == groups_total(groups@.take(i as int)),
            default_savings == groups_selected(groups@.take(i as int)),
        decreases groups.len() - i,
    {
        proof {
            assert(groups@.take(i as int + 1).drop_last() =~= groups@.take(i as int));
        }
        potential = potential.saturating_add(groups[i].total_size);
        default_savings = default_savings.saturating_add(groups[i].selected_size);
        i = i + 1;
    }
    assert(groups@.take(groups.len() as int) =~= groups@);
    SmartScanReport {
        root_path: owned(root_path),
        generated_at_ms,
        potential_savings: potential,
        default_savings,
        groups,
        analysis_duration_ms: 0,
    }
}

proof fn lemma_groups_permuted(a: Seq<SmartGroup>, b: Seq<SmartGroup>)
    requires
        a.to_multiset() == b.to_multiset(),
        forall|i: int| 0 <= i < a.len() ==> #[trigger] group_ok(a[i]),
    ensures
        forall|i: int| 0 <= i < b.len() ==> #[trigger] group_ok(b[i]),
{
    a.to_multiset_ensures();
    b.to_multiset_ensures();
    assert forall|i: int| 0 <= i < b.len() implies #[trigger] group_ok(b[i]) by {
        assert(b.to_multiset().count(b[i]) > 0);
        assert(a.contains(b[i]));
    }
}

/// The report over a scan index, stamped with the current time and the time
/// the analysis took.
pub fn build_report(indexed: &IndexedScanResult) -> (r: SmartScanReport)
    ensures
        forall|j: int|
            0 <= j < indexed.nodes_view().len() && dir_rule(indexed.nodes_view()[j], indexed.root_view()) is Some
                ==> #[trigger] report_shows(
                r.groups@,
                indexed.nodes_view(),
                indexed.root_view(),
                indexed.nodes_view()[j].path@,
                indexed.nodes_view()[j].size,
                dir_category(indexed.nodes_view()[j], indexed.root_view()),
            ),
        forall|f: int|
            0 <= f < indexed.large_files_view().len() && indexed.large_files_view()[f].size >= LARGE_FILE_THRESHOLD
                && !in_global_blocklist(ascii_lower(indexed.large_files_view()[f].path@)) ==> #[trigger] report_shows(
                r.groups@,
                indexed.nodes_view(),
                indexed.root_view(),
                indexed.large_files_view()[f].path@,
                indexed.large_files_view()[f].size,
                file_category(indexed.large_files_view()[f]),
            ),
        r.root_path@ == indexed.root_view(),
        sorted_desc(r.groups@),
        forall|i: int| 0 <= i < r.groups@.len() ==> #[trigger] group_ok(r.groups@[i]),
        r.potential_savings == groups_total(r.groups@),
        r.default_savings == groups_selected(r.groups@),
        r.groups@.len() <= 4,
        forall|i: int, k: int| 0 <= i < r.groups@.len() && 0 <= k < r.groups@[i].items@.len() ==> reported_from(
            #[trigger] r.groups@[i].items@[k],
            indexed.nodes_view(),
            indexed.large_files_view(),
            indexed.root_view(),
        ),
        forall|i: int|
            0 <= i < r.groups@.len() && (#[trigger] r.groups@[i]).category == SmartCategory::TempFiles
                ==> r.groups@[i].recommendation == SmartAction::Delete,
        forall|i: int, k: int|
            0 <= i < r.groups@.len() && 0 <= k < r.groups@[i].items@.len() && (#[trigger] r.groups@[i].items@[k]).category
                == SmartCategory::TempFiles ==> r.groups@[i].items@[k].recommendation == SmartAction::Delete,
{
    let started = crate::clock::now_millis();
    let mut report = build_report_at(indexed, started);
    let finished = crate::clock::now_millis();
    report.analysis_duration_ms = finished.saturating_sub(started);
    proof {
        assert forall|i: int|
            0 <= i < report.groups@.len() && (#[trigger] report.groups@[i]).category == SmartCategory::TempFiles
                implies report.groups@[i].recommendation == SmartAction::Delete by {
            law_group_recommendation(report.groups@[i]);
        }
        assert forall|i: int, k: int|
            0 <= i < report.groups@.len() && 0 <= k < report.groups@[i].items@.len() && (
            #[trigger] report.groups@[i].items@[k]).category == SmartCategory::TempFiles implies report.groups@[i].items@[k].recommendation
                == SmartAction::Delete by {
            law_reported_item_recommendation(
                report.groups@[i].items@[k],
                indexed.nodes_view(),
                indexed.large_files_view(),
                indexed.root_view(),
            );
        }
    }
    report
}

} // verus!
