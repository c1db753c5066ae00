//! Where the space of a volume goes: every top-level entry of a scan (and
//! the users' and ProgramData's own subdirectories) sorted into ten
//! categories, each with its ten largest entries; the program directories
//! that could be moved; and a plan to balance two volumes.
use vstd::prelude::*;
use crate::by_size::{is_stable_key_order, key_before, stable_key_order};
use crate::explain::{explain_form, explain_path, explained, explanation_view, ExplainEngine, FileExplanation};
use crate::file_info::{DirectoryNode, FileInfo};
use crate::incremental::{parent_path, parent_path_spec, ROOT_FILES_NODE_NAME};
use crate::safety::{MigrationSafety, Verdict};
use crate::scan_index::{index_key, IndexedScanResult};
use crate::tree::sat_u64;
use crate::text::{
    ascii_lower, contains, contains_seq, ends_with, is_prefix_of, is_suffix_of, owned, push_char, push_str,
    replace_char, replace_char_str, starts_with, str_eq, to_ascii_lowercase, trim_end_char, trim_end_char_str,
};

verus! {

/// The fixed lists of path fragments the classification reads.
#[derive(Debug, Clone, Copy, PartialEq, Eq, Structural)]
pub enum Table {
    SystemRoots,
    UserDirs,
    GameMarkers,
    TempMarkers,
    OemRoots,
    CacheMarkers,
    CacheEndings,
    DevMarkers,
    DotDirs,
    IdeKeywords,
    GameKeywords,
    OfficeKeywords,
}

/// The number of entries of a list.
pub open spec fn table_len(t: Table) -> int {
    match t {
        Table::SystemRoots => 12,
        Table::UserDirs => 12,
        Table::GameMarkers => 10,
        Table::TempMarkers => 9,
        Table::OemRoots => 8,
        Table::CacheMarkers => 15,
        Table::CacheEndings => 6,
        Table::DevMarkers => 32,
        Table::DotDirs => 6,
        Table::IdeKeywords => 11,
        Table::GameKeywords => 8,
        Table::OfficeKeywords => 3,
    }
}

/// Entry `i` of a list.
pub open spec fn table_entry(t: Table, i: int) -> Seq<char> {
    match t {
        Table::SystemRoots => {
            if i == 0 {
                "c:\\windows"@
            } else if i == 1 {
                "c:\\$recycle.bin"@
            } else if i == 2 {
                "c:\\system volume information"@
            } else if i == 3 {
                "c:\\recovery"@
            } else if i == 4 {
                "c:\\boot"@
            } else if i == 5 {
                "c:\\efi"@
            } else if i == 6 {
                "c:\\$windows.~bt"@
            } else if i == 7 {
                "c:\\$windows.~ws"@
            } else if i == 8 {
                "c:\\$winreagent"@
            } else if i == 9 {
                "c:\\$sysreset"@
            } else if i == 10 {
                "c:\\windows.old"@
            } else {
                "c:\\msocache"@
            }
        },
        Table::UserDirs => {
            if i == 0 {
                "\\documents"@
            } else if i == 1 {
                "\\desktop"@
            } else if i == 2 {
                "\\downloads"@
            } else if i == 3 {
                "\\pictures"@
            } else if i == 4 {
                "\\videos"@
            } else if i == 5 {
                "\\music"@
            } else if i == 6 {
                "\\onedrive"@
            } else if i == 7 {
                "\\contacts"@
            } else if i == 8 {
                "\\favorites"@
            } else if i == 9 {
                "\\links"@
            } else if i == 10 {
                "\\saved games"@
            } else {
                "\\searches"@
            }
        },
        Table::GameMarkers => {
            if i == 0 {
                "\\steam\\steamapps\\"@
            } else if i == 1 {
                "\\epic games\\"@
            } else if i == 2 {
                "\\xboxgames\\"@
            } else if i == 3 {
                "\\xbox games\\"@
            } else if i == 4 {
                "\\gog games\\"@
            } else if i == 5 {
                "\\riot games\\"@
            } else if i == 6 {
                "\\ubisoft\\ubisoft game launcher\\games\\"@
            } else if i == 7 {
                "\\origin games\\"@
            } else if i == 8 {
                "\\ea games\\"@
            } else {
                "\\battle.net\\games\\"@
            }
        },
        Table::TempMarkers => {
            if i == 0 {
                "\\local\\temp\\"@
            } else if i == 1 {
                "\\local\\temp"@
            } else if i == 2 {
                "\\windows\\temp\\"@
            } else if i == 3 {
                "\\windows\\temp"@
            } else if i == 4 {
                "\\crashdumps\\"@
            } else if i == 5 {
                "\\crashdumps"@
            } else if i == 6 {
                "\\crash\\"@
            } else if i == 7 {
                "\\logs\\"@
            } else {
                "\\log\\"@
            }
        },
        Table::OemRoots => {
            if i == 0 {
                "c:\\intel"@
            } else if i == 1 {
                "c:\\amd"@
            } else if i == 2 {
                "c:\\nvidia"@
            } else if i == 3 {
                "c:\\dell"@
            } else if i == 4 {
                "c:\\hp"@
            } else if i == 5 {
                "c:\\swsetup"@
            } else if i == 6 {
                "c:\\drivers"@
            } else {
                "c:\\perflogs"@
            }
        },
        Table::CacheMarkers => {
            if i == 0 {
                "\\cache\\"@
            } else if i == 1 {
                "\\cache2\\"@
            } else if i == 2 {
                "\\gpucache\\"@
            } else if i == 3 {
                "\\code cache\\"@
            } else if i == 4 {
                "\\cacheddata\\"@
            } else if i == 5 {
                "\\cachedextensionvsixs\\"@
            } else if i == 6 {
                "\\shader cache\\"@
            } else if i == 7 {
                "\\nv_cache\\"@
            } else if i == 8 {
                "\\dxcache\\"@
            } else if i == 9 {
                "\\deliveryoptimization\\"@
            } else if i == 10 {
                "\\inetcache\\"@
            } else if i == 11 {
                "\\webcache\\"@
            } else if i == 12 {
                "\\browsercache\\"@
            } else if i == 13 {
                "\\httpcache\\"@
            } else {
                "\\shadercache\\"@
            }
        },
        Table::CacheEndings => {
            if i == 0 {
                "\\cache"@
            } else if i == 1 {
                "\\gpucache"@
            } else if i == 2 {
                "\\code cache"@
            } else if i == 3 {
                "\\deliveryoptimization"@
            } else if i == 4 {
                "\\inetcache"@
            } else {
                "\\webcache"@
            }
        },
        Table::DevMarkers => {
            if i == 0 {
                "\\node_modules\\"@
            } else if i == 1 {
                "\\node_modules"@
            } else if i == 2 {
                "\\.pnpm-store\\"@
            } else if i == 3 {
                "\\.pnpm-store"@
            } else if i == 4 {
                "\\.npm\\"@
            } else if i == 5 {
                "\\.npm"@
            } else if i == 6 {
                "\\.yarn\\"@
            } else if i == 7 {
                "\\.yarn"@
            } else if i == 8 {
                "\\.cargo\\registry\\"@
            } else if i == 9 {
                "\\.cargo\\registry"@
            } else if i == 10 {
                "\\target\\debug\\"@
            } else if i == 11 {
                "\\target\\release\\"@
            } else if i == 12 {
                "\\.gradle\\caches\\"@
            } else if i == 13 {
                "\\.gradle\\caches"@
            } else if i == 14 {
                "\\.m2\\repository\\"@
            } else if i == 15 {
                "\\.m2\\repository"@
            } else if i == 16 {
                "__pycache__"@
            } else if i == 17 {
                "\\.rustup\\"@
            } else if i == 18 {
                "\\.nuget\\"@
            } else if i == 19 {
                "\\.conda\\"@
            } else if i == 20 {
                "\\.virtualenvs\\"@
            } else if i == 21 {
                "\\.bun\\"@
            } else if i == 22 {
                "\\.deno\\"@
            } else if i == 23 {
                "\\go\\pkg\\"@
            } else if i == 24 {
                "\\.jdks\\"@
            } else if i == 25 {
                "\\.sdkman\\"@
            } else if i == 26 {
                "\\.docker\\"@
            } else if i == 27 {
                "\\.kube\\"@
            } else if i == 28 {
                "\\android\\sdk\\"@
            } else if i == 29 {
                "\\.pyenv\\"@
            } else if i == 30 {
                "\\.nvm\\"@
            } else {
                "\\.fnm\\"@
            }
        },
        Table::DotDirs => {
            if i == 0 {
                "\\.vscode\\"@
            } else if i == 1 {
                "\\.vscode"@
            } else if i == 2 {
                "\\.kiro\\"@
            } else if i == 3 {
                "\\.kiro"@
            } else if i == 4 {
                "\\.trae\\"@
            } else {
                "\\.trae"@
            }
        },
        Table::IdeKeywords => {
            if i == 0 {
                "visual studio"@
            } else if i == 1 {
                "jetbrains"@
            } else if i == 2 {
                "code"@
            } else if i == 3 {
                "trae"@
            } else if i == 4 {
                "cursor"@
            } else if i == 5 {
                "intellij"@
            } else if i == 6 {
                "rider"@
            } else if i == 7 {
                "webstorm"@
            } else if i == 8 {
                "pycharm"@
            } else if i == 9 {
                "goland"@
            } else {
                "clion"@
            }
        },
        Table::GameKeywords => {
            if i == 0 {
                "steam"@
            } else if i == 1 {
                "epic"@
            } else if i == 2 {
                "xbox"@
            } else if i == 3 {
                "game"@
            } else if i == 4 {
                "riot"@
            } else if i == 5 {
                "battle.net"@
            } else if i == 6 {
                "origin"@
            } else {
                "ea app"@
            }
        },
        Table::OfficeKeywords => {
            if i == 0 {
                "microsoft office"@
            } else if i == 1 {
                "wps"@
            } else {
                "libreoffice"@
            }
        },
    }
}

fn table_size(t: Table) -> (r: usize)
    ensures
        r == table_len(t),
{
    match t {
        Table::SystemRoots => 12,
        Table::UserDirs => 12,
        Table::GameMarkers => 10,
        Table::TempMarkers => 9,
        Table::OemRoots => 8,
        Table::CacheMarkers => 15,
        Table::CacheEndings => 6,
        Table::DevMarkers => 32,
        Table::DotDirs => 6,
        Table::IdeKeywords => 11,
        Table::GameKeywords => 8,
        Table::OfficeKeywords => 3,
    }
}

fn table_str(t: Table, i: usize) -> (r: &'static str)
    requires
        i < table_len(t),
    ensures
        r@ == table_entry(t, i as int),
{
    match t {
        Table::SystemRoots => {
            if i == 0 {
                "c:\\windows"
            } else if i == 1 {
                "c:\\$recycle.bin"
            } else if i == 2 {
                "c:\\system volume information"
            } else if i == 3 {
                "c:\\recovery"
            } else if i == 4 {
                "c:\\boot"
            } else if i == 5 {
                "c:\\efi"
            } else if i == 6 {
                "c:\\$windows.~bt"
            } else if i == 7 {
                "c:\\$windows.~ws"
            } else if i == 8 {
                "c:\\$winreagent"
            } else if i == 9 {
                "c:\\$sysreset"
            } else if i == 10 {
                "c:\\windows.old"
            } else {
                "c:\\msocache"
            }
        },
        Table::UserDirs => {
            if i == 0 {
                "\\documents"
            } else if i == 1 {
                "\\desktop"
            } else if i == 2 {
                "\\downloads"
            } else if i == 3 {
                "\\pictures"
            } else if i == 4 {
                "\\videos"
            } else if i == 5 {
                "\\music"
            } else if i == 6 {
                "\\onedrive"
            } else if i == 7 {
                "\\contacts"
            } else if i == 8 {
                "\\favorites"
            } else if i == 9 {
                "\\links"
            } else if i == 10 {
                "\\saved games"
            } else {
                "\\searches"
            }
        },
        Table::GameMarkers => {
            if i == 0 {
                "\\steam\\steamapps\\"
            } else if i == 1 {
                "\\epic games\\"
            } else if i == 2 {
                "\\xboxgames\\"
            } else if i == 3 {
                "\\xbox games\\"
            } else if i == 4 {
                "\\gog games\\"
            } else if i == 5 {
                "\\riot games\\"
            } else if i == 6 {
                "\\ubisoft\\ubisoft game launcher\\games\\"
            } else if i == 7 {
                "\\origin games\\"
            } else if i == 8 {
                "\\ea games\\"
            } else {
                "\\battle.net\\games\\"
            }
        },
        Table::TempMarkers => {
            if i == 0 {
                "\\local\\temp\\"
            } else if i == 1 {
                "\\local\\temp"
            } else if i == 2 {
                "\\windows\\temp\\"
            } else if i == 3 {
                "\\windows\\temp"
            } else if i == 4 {
                "\\crashdumps\\"
            } else if i == 5 {
                "\\crashdumps"
            } else if i == 6 {
                "\\crash\\"
            } else if i == 7 {
                "\\logs\\"
            } else {
                "\\log\\"
            }
        },
        Table::OemRoots => {
            if i == 0 {
                "c:\\intel"
            } else if i == 1 {
                "c:\\amd"
            } else if i == 2 {
                "c:\\nvidia"
            } else if i == 3 {
                "c:\\dell"
            } else if i == 4 {
                "c:\\hp"
            } else if i == 5 {
                "c:\\swsetup"
            } else if i == 6 {
                "c:\\drivers"
            } else {
                "c:\\perflogs"
            }
        },
        Table::CacheMarkers => {
            if i == 0 {
                "\\cache\\"
            } else if i == 1 {
                "\\cache2\\"
            } else if i == 2 {
                "\\gpucache\\"
            } else if i == 3 {
                "\\code cache\\"
            } else if i == 4 {
                "\\cacheddata\\"
            } else if i == 5 {
                "\\cachedextensionvsixs\\"
            } else if i == 6 {
                "\\shader cache\\"
            } else if i == 7 {
                "\\nv_cache\\"
            } else if i == 8 {
                "\\dxcache\\"
            } else if i == 9 {
                "\\deliveryoptimization\\"
            } else if i == 10 {
                "\\inetcache\\"
            } else if i == 11 {
                "\\webcache\\"
            } else if i == 12 {
                "\\browsercache\\"
            } else if i == 13 {
                "\\httpcache\\"
            } else {
                "\\shadercache\\"
            }
        },
        Table::CacheEndings => {
            if i == 0 {
                "\\cache"
            } else if i == 1 {
                "\\gpucache"
            } else if i == 2 {
                "\\code cache"
            } else if i == 3 {
                "\\deliveryoptimization"
            } else if i == 4 {
                "\\inetcache"
            } else {
                "\\webcache"
            }
        },
        Table::DevMarkers => {
            if i == 0 {
                "\\node_modules\\"
            } else if i == 1 {
                "\\node_modules"
            } else if i == 2 {
                "\\.pnpm-store\\"
            } else if i == 3 {
                "\\.pnpm-store"
            } else if i == 4 {
                "\\.npm\\"
            } else if i == 5 {
                "\\.npm"
            } else if i == 6 {
                "\\.yarn\\"
            } else if i == 7 {
                "\\.yarn"
            } else if i == 8 {
                "\\.cargo\\registry\\"
            } else if i == 9 {
                "\\.cargo\\registry"
            } else if i == 10 {
                "\\target\\debug\\"
            } else if i == 11 {
                "\\target\\release\\"
            } else if i == 12 {
                "\\.gradle\\caches\\"
            } else if i == 13 {
                "\\.gradle\\caches"
            } else if i == 14 {
                "\\.m2\\repository\\"
            } else if i == 15 {
                "\\.m2\\repository"
            } else if i == 16 {
                "__pycache__"
            } else if i == 17 {
                "\\.rustup\\"
            } else if i == 18 {
                "\\.nuget\\"
            } else if i == 19 {
                "\\.conda\\"
            } else if i == 20 {
                "\\.virtualenvs\\"
            } else if i == 21 {
                "\\.bun\\"
            } else if i == 22 {
                "\\.deno\\"
            } else if i == 23 {
                "\\go\\pkg\\"
            } else if i == 24 {
                "\\.jdks\\"
            } else if i == 25 {
                "\\.sdkman\\"
            } else if i == 26 {
                "\\.docker\\"
            } else if i == 27 {
                "\\.kube\\"
            } else if i == 28 {
                "\\android\\sdk\\"
            } else if i == 29 {
                "\\.pyenv\\"
            } else if i == 30 {
                "\\.nvm\\"
            } else {
                "\\.fnm\\"
            }
        },
        Table::DotDirs => {
            if i == 0 {
                "\\.vscode\\"
            } else if i == 1 {
                "\\.vscode"
            } else if i == 2 {
                "\\.kiro\\"
            } else if i == 3 {
                "\\.kiro"
            } else if i == 4 {
                "\\.trae\\"
            } else {
                "\\.trae"
            }
        },
        Table::IdeKeywords => {
            if i == 0 {
                "visual studio"
            } else if i == 1 {
                "jetbrains"
            } else if i == 2 {
                "code"
            } else if i == 3 {
                "trae"
            } else if i == 4 {
                "cursor"
            } else if i == 5 {
                "intellij"
            } else if i == 6 {
                "rider"
            } else if i == 7 {
                "webstorm"
            } else if i == 8 {
                "pycharm"
            } else if i == 9 {
                "goland"
            } else {
                "clion"
            }
        },
        Table::GameKeywords => {
            if i == 0 {
                "steam"
            } else if i == 1 {
                "epic"
            } else if i == 2 {
                "xbox"
            } else if i == 3 {
                "game"
            } else if i == 4 {
                "riot"
            } else if i == 5 {
                "battle.net"
            } else if i == 6 {
                "origin"
            } else {
                "ea app"
            }
        },
        Table::OfficeKeywords => {
            if i == 0 {
                "microsoft office"
            } else if i == 1 {
                "wps"
            } else {
                "libreoffice"
            }
        },
    }
}

/// How an entry of a list is held against a lowercased path.
#[derive(Debug, Clone, Copy, PartialEq, Eq, Structural)]
pub enum HitKind {
    /// The path is the entry or lies below it.
    Under,
    /// The path contains the entry.
    Contains,
    /// The path ends with the entry.
    Suffix,
    /// The path contains the entry or ends with it, trailing `\` dropped.
    Marker,
    /// The path is the profile followed by the entry, or lies below it.
    UnderProfile,
    /// The path starts with the profile followed by the entry, or is that
    /// with trailing `\` dropped.
    ProfileDot,
}

/// `pl` is `root` or lies below it.
pub open spec fn under(pl: Seq<char>, root: Seq<char>) -> bool {
    pl == root || is_prefix_of(root.push('\\'), pl)
}

pub open spec fn entry_hit(kind: HitKind, pl: Seq<char>, up: Seq<char>, e: Seq<char>) -> bool {
    match kind {
        HitKind::Under => under(pl, e),
        HitKind::Contains => contains_seq(pl, e),
        HitKind::Suffix => is_suffix_of(e, pl),
        HitKind::Marker => contains_seq(pl, e) || is_suffix_of(trim_end_char(e, '\\'), pl),
        HitKind::UnderProfile => under(pl, up + e),
        HitKind::ProfileDot => is_prefix_of(up + e, pl) || pl == trim_end_char(up + e, '\\'),
    }
}

/// Some entry of the list hits the path.
pub open spec fn table_hit(kind: HitKind, t: Table, pl: Seq<char>, up: Seq<char>) -> bool {
    exists|i: int| 0 <= i < table_len(t) && #[trigger] entry_hit(kind, pl, up, table_entry(t, i))
}

fn under_str(pl: &str, root: &str) -> (r: bool)
    ensures
        r == under(pl@, root@),
{
    if str_eq(pl, root) {
        return true;
    }
    let mut prefix = owned(root);
    push_char(&mut prefix, '\\');
    starts_with(pl, prefix.as_str())
}

fn entry_hits(kind: HitKind, pl: &str, up: &str, e: &str) -> (r: bool)
    ensures
        r == entry_hit(kind, pl@, up@, e@),
{
    match kind {
        HitKind::Under => under_str(pl, e),
        HitKind::Contains => contains(pl, e),
        HitKind::Suffix => ends_with(pl, e),
        HitKind::Marker => {
            if contains(pl, e) {
                return true;
            }
            let trimmed = trim_end_char_str(e, '\\');
            ends_with(pl, trimmed.as_str())
        },
        HitKind::UnderProfile => {
            let mut full = owned(up);
            push_str(&mut full, e);
            under_str(pl, full.as_str())
        },
        HitKind::ProfileDot => {
            let mut full = owned(up);
            push_str(&mut full, e);
            if starts_with(pl, full.as_str()) {
                return true;
            }
            let trimmed = trim_end_char_str(full.as_str(), '\\');
            str_eq(pl, trimmed.as_str())
        },
    }
}

fn table_hits(kind: HitKind, t: Table, pl: &str, up: &str) -> (r: bool)
    ensures
        r == table_hit(kind, t, pl@, up@),
{
    let n = table_size(t);
    let mut i: usize = 0;
    while i < n
        invariant
            i <= n,
            n == table_len(t),
            forall|j: int| 0 <= j < i ==> !#[trigger] entry_hit(kind, pl@, up@, table_entry(t, j)),
        decreases n - i,
    {
        let e = table_str(t, i);
        if entry_hits(kind, pl, up, e) {
            return true;
        }
        i = i + 1;
    }
    false
}

/// The categories of the breakdown, in the order they are listed before
/// sorting.
#[derive(Debug, Clone, Copy, PartialEq, Eq, Structural)]
pub enum SpaceCategory {
    System,
    Programs,
    UserData,
    AppData,
    AppCache,
    DevTools,
    Temp,
    Games,
    SystemReserved,
    Other,
}

/// The number of categories.
pub const CATEGORY_COUNT: usize = 10;

/// The position of a category in the listing.
pub open spec fn category_index(c: SpaceCategory) -> int {
    match c {
        SpaceCategory::System => 0,
        SpaceCategory::Programs => 1,
        SpaceCategory::UserData => 2,
        SpaceCategory::AppData => 3,
        SpaceCategory::AppCache => 4,
        SpaceCategory::DevTools => 5,
        SpaceCategory::Temp => 6,
        SpaceCategory::Games => 7,
        SpaceCategory::SystemReserved => 8,
        SpaceCategory::Other => 9,
    }
}

fn category_position(c: SpaceCategory) -> (r: usize)
    ensures
        r == category_index(c),
{
    match c {
        SpaceCategory::System => 0,
        SpaceCategory::Programs => 1,
        SpaceCategory::UserData => 2,
        SpaceCategory::AppData => 3,
        SpaceCategory::AppCache => 4,
        SpaceCategory::DevTools => 5,
        SpaceCategory::Temp => 6,
        SpaceCategory::Games => 7,
        SpaceCategory::SystemReserved => 8,
        SpaceCategory::Other => 9,
    }
}

/// The category a lowercased path (`\` as separator) falls in, given the
/// lowercased user profile directory `up`.
pub open spec fn category_of(pl: Seq<char>, up: Seq<char>) -> SpaceCategory {
    if table_hit(HitKind::Under, Table::SystemRoots, pl, up) {
        SpaceCategory::System
    } else if is_prefix_of("c:\\programdata\\microsoft\\windows\\"@, pl) {
        SpaceCategory::System
    } else if is_suffix_of("\\pagefile.sys"@, pl) || is_suffix_of("\\hiberfil.sys"@, pl) || is_suffix_of(
        "\\swapfile.sys"@,
        pl,
    ) {
        SpaceCategory::System
    } else if is_prefix_of("c:\\program files\\"@, pl) || is_prefix_of("c:\\program files (x86)\\"@, pl) || pl
        == "c:\\program files"@ || pl == "c:\\program files (x86)"@ {
        if contains_seq(pl, "\\windowsapps"@) {
            SpaceCategory::System
        } else if contains_seq(pl, "\\steam\\steamapps\\"@) || contains_seq(pl, "\\epic games\\"@) || contains_seq(
            pl,
            "\\xbox games\\"@,
        ) {
            SpaceCategory::Games
        } else {
            SpaceCategory::Programs
        }
    } else if is_prefix_of("c:\\programdata\\package cache"@, pl) || pl == "c:\\programdata\\package cache"@ {
        SpaceCategory::Programs
    } else if table_hit(HitKind::UnderProfile, Table::UserDirs, pl, up) {
        SpaceCategory::UserData
    } else if table_hit(HitKind::Contains, Table::GameMarkers, pl, up) {
        SpaceCategory::Games
    } else if table_hit(HitKind::Marker, Table::TempMarkers, pl, up) {
        SpaceCategory::Temp
    } else if table_hit(HitKind::Under, Table::OemRoots, pl, up) {
        SpaceCategory::Temp
    } else if table_hit(HitKind::Contains, Table::CacheMarkers, pl, up) || table_hit(
        HitKind::Suffix,
        Table::CacheEndings,
        pl,
        up,
    ) {
        SpaceCategory::AppCache
    } else if table_hit(HitKind::Marker, Table::DevMarkers, pl, up) {
        SpaceCategory::DevTools
    } else if is_prefix_of(up + "\\appdata\\local\\"@, pl) || is_prefix_of(up + "\\appdata\\roaming\\"@, pl)
        || is_prefix_of(up + "\\appdata\\"@, pl) {
        SpaceCategory::AppData
    } else if table_hit(HitKind::ProfileDot, Table::DotDirs, pl, up) {
        SpaceCategory::AppData
    } else if is_prefix_of("c:\\programdata\\"@, pl) || pl == "c:\\programdata"@ {
        SpaceCategory::AppData
    } else if is_prefix_of("c:\\users\\"@, pl) {
        SpaceCategory::AppData
    } else {
        SpaceCategory::Other
    }
}

fn profile_prefix_hit(pl: &str, up: &str, tail: &str) -> (r: bool)
    ensures
        r == is_prefix_of(up@ + tail@, pl@),
{
    let mut full = owned(up);
    push_str(&mut full, tail);
    starts_with(pl, full.as_str())
}

/// The category of a lowercased path, given the lowercased profile
/// directory (see [`category_of`]).
pub fn classify_path(path_lower: &str, user_profile_lower: &str) -> (r: SpaceCategory)
    ensures
        r == category_of(path_lower@, user_profile_lower@),
{
    let pl = path_lower;
    let up = user_profile_lower;
    if table_hits(HitKind::Under, Table::SystemRoots, pl, up) {
        return SpaceCategory::System;
    }
    if starts_with(pl, "c:\\programdata\\microsoft\\windows\\") {
        return SpaceCategory::System;
    }
    if ends_with(pl, "\\pagefile.sys") || ends_with(pl, "\\hiberfil.sys") || ends_with(pl, "\\swapfile.sys") {
        return SpaceCategory::System;
    }
    if starts_with(pl, "c:\\program files\\") || starts_with(pl, "c:\\program files (x86)\\") || str_eq(
        pl,
        "c:\\program files",
    ) || str_eq(pl, "c:\\program files (x86)") {
        if contains(pl, "\\windowsapps") {
            return SpaceCategory::System;
        }
        if contains(pl, "\\steam\\steamapps\\") || contains(pl, "\\epic games\\") || contains(pl, "\\xbox games\\") {
            return SpaceCategory::Games;
        }
        return SpaceCategory::Programs;
    }
    if starts_with(pl, "c:\\programdata\\package cache") || str_eq(pl, "c:\\programdata\\package cache") {
        return SpaceCategory::Programs;
    }
    if table_hits(HitKind::UnderProfile, Table::UserDirs, pl, up) {
        return SpaceCategory::UserData;
    }
    if table_hits(HitKind::Contains, Table::GameMarkers, pl, up) {
        return SpaceCategory::Games;
    }
    if table_hits(HitKind::Marker, Table::TempMarkers, pl, up) {
        return SpaceCategory::Temp;
    }
    if table_hits(HitKind::Under, Table::OemRoots, pl, up) {
        return SpaceCategory::Temp;
    }
    if table_hits(HitKind::Contains, Table::CacheMarkers, pl, up) || table_hits(
        HitKind::Suffix,
        Table::CacheEndings,
        pl,
        up,
    ) {
        return SpaceCategory::AppCache;
    }
    if table_hits(HitKind::Marker, Table::DevMarkers, pl, up) {
        return SpaceCategory::DevTools;
    }
    if profile_prefix_hit(pl, up, "\\appdata\\local\\") || profile_prefix_hit(pl, up, "\\appdata\\roaming\\")
        || profile_prefix_hit(pl, up, "\\appdata\\") {
        return SpaceCategory::AppData;
    }
    if table_hits(HitKind::ProfileDot, Table::DotDirs, pl, up) {
        return SpaceCategory::AppData;
    }
    if starts_with(pl, "c:\\programdata\\") || str_eq(pl, "c:\\programdata") {
        return SpaceCategory::AppData;
    }
    if starts_with(pl, "c:\\users\\") {
        return SpaceCategory::AppData;
    }
    SpaceCategory::Other
}

/// The profile directory as the classification reads it: the value given
/// (or `C:\Users\Default` when there is none), lowercased, `/` read as `\`.
pub open spec fn profile_form(value: Option<Seq<char>>) -> Seq<char> {
    let raw = match value {
        Some(v) => v,
        None => "C:\\Users\\Default"@,
    };
    replace_char(ascii_lower(raw), '/', '\\')
}

/// The profile directory as the classification reads it (see
/// [`profile_form`]).
pub fn user_profile_lower(value: Option<&str>) -> (r: String)
    ensures
        r@ == profile_form(match value {
            Some(v) => Some(v@),
            None => None,
        }),
{
    let raw = match value {
        Some(v) => v,
        None => "C:\\Users\\Default",
    };
    let lowered = to_ascii_lowercase(raw);
    replace_char_str(lowered.as_str(), '/', '\\')
}

// ---------------------------------------------------------------------------
// Buckets: the size of each category and its ten largest entries
// ---------------------------------------------------------------------------

/// At most this many entries are kept per category.
pub const TOP_ITEMS: usize = 10;

/// One entry handed to the categories: a directory or file, its name and
/// its size.
pub struct BucketEntry {
    pub path: String,
    pub name: String,
    pub size: u64,
    pub is_dir: bool,
}

/// An entry as plain values: path, name, size, directory or not.
pub open spec fn entry_view(e: BucketEntry) -> (Seq<char>, Seq<char>, u64, bool) {
    (e.path@, e.name@, e.size, e.is_dir)
}

pub open spec fn entries_view(s: Seq<BucketEntry>) -> Seq<(Seq<char>, Seq<char>, u64, bool)> {
    Seq::new(s.len(), |i: int| entry_view(s[i]))
}

/// Entries ordered by size, largest first.
pub open spec fn entries_sorted_desc(s: Seq<(Seq<char>, Seq<char>, u64, bool)>) -> bool {
    forall|i: int, j: int| 0 <= i < j < s.len() ==> s[i].2 >= s[j].2
}

/// The first position holding an entry smaller than `size` (the length
/// when there is none).
pub open spec fn insert_pos(items: Seq<(Seq<char>, Seq<char>, u64, bool)>, size: u64) -> int
    decreases items.len(),
{
    if items.len() == 0 {
        0
    } else if items[0].2 < size {
        0
    } else {
        1 + insert_pos(items.drop_first(), size)
    }
}

/// A category's list after an entry is offered to it: when the list holds
/// fewer than ten entries or the entry is larger than its last one, the
/// entry goes after every entry at least as large (what a stable sort,
/// largest first, does) and the list is cut to ten; else it is unchanged.
pub open spec fn keep_top(
    items: Seq<(Seq<char>, Seq<char>, u64, bool)>,
    e: (Seq<char>, Seq<char>, u64, bool),
) -> Seq<(Seq<char>, Seq<char>, u64, bool)> {
    if items.len() < TOP_ITEMS || e.2 > items.last().2 {
        let ins = items.insert(insert_pos(items, e.2), e);
        if ins.len() > TOP_ITEMS {
            ins.take(TOP_ITEMS as int)
        } else {
            ins
        }
    } else {
        items
    }
}

proof fn lemma_insert_pos(items: Seq<(Seq<char>, Seq<char>, u64, bool)>, size: u64)
    requires
        entries_sorted_desc(items),
    ensures
        0 <= insert_pos(items, size) <= items.len(),
        forall|k: int| 0 <= k < insert_pos(items, size) ==> items[k].2 >= size,
        forall|k: int| insert_pos(items, size) <= k < items.len() ==> items[k].2 < size,
    decreases items.len(),
{
    if items.len() > 0 && items[0].2 >= size {
        let rest = items.drop_first();
        lemma_insert_pos(rest, size);
        assert forall|k: int| 0 <= k < insert_pos(items, size) implies items[k].2 >= size by {
            if k > 0 {
                assert(items[k] == rest[k - 1]);
            }
        }
        assert forall|k: int| insert_pos(items, size) <= k < items.len() implies items[k].2 < size by {
            assert(items[k] == rest[k - 1]);
        }
    }
}

proof fn lemma_keep_top_sorted(items: Seq<(Seq<char>, Seq<char>, u64, bool)>, e: (Seq<char>, Seq<char>, u64, bool))
    requires
        entries_sorted_desc(items),
        items.len() <= TOP_ITEMS,
    ensures
        entries_sorted_desc(keep_top(items, e)),
        keep_top(items, e).len() <= TOP_ITEMS,
{
    if items.len() < TOP_ITEMS || e.2 > items.last().2 {
        let p = insert_pos(items, e.2);
        lemma_insert_pos(items, e.2);
        let ins = items.insert(p, e);
        assert forall|i: int, j: int| 0 <= i < j < ins.len() implies ins[i].2 >= ins[j].2 by {
            if i < p && j < p {
            } else if i < p && j == p {
            } else if i < p {
                assert(ins[j] == items[j - 1]);
            } else if i == p {
                assert(ins[j] == items[j - 1]);
            } else {
                assert(ins[i] == items[i - 1] && ins[j] == items[j - 1]);
            }
        }
    }
}

/// An entry offered to a sorted list of at most ten (see [`keep_top`]).
fn keep_top_exec(items: &mut Vec<BucketEntry>, e: BucketEntry)
    requires
        entries_sorted_desc(entries_view(old(items)@)),
        old(items)@.len() <= TOP_ITEMS,
    ensures
        entries_view(final(items)@) == keep_top(entries_view(old(items)@), entry_view(e)),
{
    let ghost v0 = entries_view(items@);
    let n = items.len();
    if n < TOP_ITEMS || e.size > items[n - 1].size {
        let mut pos: usize = 0;
        while pos < n && items[pos].size >= e.size
            invariant
                pos <= n,
                n == items@.len(),
                v0 == entries_view(items@),
                entries_sorted_desc(v0),
                forall|k: int| 0 <= k < pos ==> v0[k].2 >= e.size,
            decreases n - pos,
        {
            pos = pos + 1;
        }
        proof {
            lemma_insert_pos(v0, e.size);
            if (pos as int) < insert_pos(v0, e.size) {
                assert(v0[pos as int].2 >= e.size);
            }
            if (pos as int) > insert_pos(v0, e.size) {
                assert(v0[insert_pos(v0, e.size)].2 < e.size);
            }
        }
        let ghost ev = entry_view(e);
        items.insert(pos, e);
        assert(entries_view(items@) =~= v0.insert(pos as int, ev));
        if items.len() > TOP_ITEMS {
            let _ = items.pop();
            assert(entries_view(items@) =~= v0.insert(pos as int, ev).take(TOP_ITEMS as int));
        }
    }
}

/// Category sizes and lists before any entry.
pub open spec fn empty_buckets() -> (Seq<u64>, Seq<Seq<(Seq<char>, Seq<char>, u64, bool)>>) {
    (Seq::new(CATEGORY_COUNT as nat, |i: int| 0u64), Seq::new(CATEGORY_COUNT as nat, |i: int| Seq::empty()))
}

/// The buckets after one entry: its category (by its lowercased form) grows
/// by its size, saturating, and the entry is offered to the category's list.
pub open spec fn bucket_add(
    b: (Seq<u64>, Seq<Seq<(Seq<char>, Seq<char>, u64, bool)>>),
    e: (Seq<char>, Seq<char>, u64, bool),
    up: Seq<char>,
) -> (Seq<u64>, Seq<Seq<(Seq<char>, Seq<char>, u64, bool)>>) {
    let c = category_index(category_of(explain_form(e.0), up));
    (b.0.update(c, sat_u64(b.0[c] + e.2) as u64), b.1.update(c, keep_top(b.1[c], e)))
}

/// The buckets after a sequence of entries, in order.
pub open spec fn buckets_after(es: Seq<(Seq<char>, Seq<char>, u64, bool)>, up: Seq<char>) -> (
    Seq<u64>,
    Seq<Seq<(Seq<char>, Seq<char>, u64, bool)>>,
)
    decreases es.len(),
{
    if es.len() == 0 {
        empty_buckets()
    } else {
        bucket_add(buckets_after(es.drop_last(), up), es.last(), up)
    }
}

/// Every list of a bucket state is sorted, largest first, and holds at most
/// ten entries.
pub open spec fn buckets_ok(b: (Seq<u64>, Seq<Seq<(Seq<char>, Seq<char>, u64, bool)>>)) -> bool {
    &&& b.0.len() == CATEGORY_COUNT
    &&& b.1.len() == CATEGORY_COUNT
    &&& forall|c: int| 0 <= c < CATEGORY_COUNT ==> #[trigger] entries_sorted_desc(b.1[c]) && b.1[c].len() <= TOP_ITEMS
}

/// Each category keeps at most its ten largest entries, largest first,
/// whatever entries come.
pub proof fn law_buckets_sorted_and_bounded(es: Seq<(Seq<char>, Seq<char>, u64, bool)>, up: Seq<char>)
    ensures
        buckets_ok(buckets_after(es, up)),
    decreases es.len(),
{
    if es.len() > 0 {
        law_buckets_sorted_and_bounded(es.drop_last(), up);
        let b = buckets_after(es.drop_last(), up);
        let e = es.last();
        let c = category_index(category_of(explain_form(e.0), up));
        lemma_keep_top_sorted(b.1[c], e);
        let nb = buckets_after(es, up);
        assert forall|k: int| 0 <= k < CATEGORY_COUNT implies #[trigger] entries_sorted_desc(nb.1[k]) && nb.1[k].len()
            <= TOP_ITEMS by {
            if k != c {
                assert(nb.1[k] == b.1[k]);
            }
        }
    }
}

pub open spec fn lists_view(l: Seq<Vec<BucketEntry>>) -> Seq<Seq<(Seq<char>, Seq<char>, u64, bool)>> {
    Seq::new(l.len(), |i: int| entries_view(l[i]@))
}

/// The category sizes and lists after all the entries (see
/// [`buckets_after`]).
pub fn fill_buckets(entries: Vec<BucketEntry>, user_profile_lower: &str) -> (r: (Vec<u64>, Vec<Vec<BucketEntry>>))
    ensures
        r.0@ == buckets_after(entries_view(entries@), user_profile_lower@).0,
        lists_view(r.1@) == buckets_after(entries_view(entries@), user_profile_lower@).1,
{
    let ghost all = entries_view(entries@);
    let ghost up = user_profile_lower@;
    let mut sizes: Vec<u64> = Vec::new();
    let mut lists: Vec<Vec<BucketEntry>> = Vec::new();
    let mut c: usize = 0;
    while c < CATEGORY_COUNT
        invariant
            c <= CATEGORY_COUNT,
            sizes@.len() == c,
            lists@.len() == c,
            forall|k: int| 0 <= k < c ==> #[trigger] sizes@[k] == 0,
            forall|k: int| 0 <= k < c ==> (#[trigger] lists@[k])@.len() == 0,
        decreases CATEGORY_COUNT - c,
    {
        sizes.push(0);
        let fresh: Vec<BucketEntry> = Vec::new();
        assert(fresh@.len() == 0);
        lists.push(fresh);
        c = c + 1;
    }
    assert(sizes@ =~= empty_buckets().0);
    assert forall|k: int| 0 <= k < CATEGORY_COUNT implies #[trigger] lists_view(lists@)[k] =~= empty_buckets().1[k] by {
        assert(lists@[k]@.len() == 0);
    }
    assert(lists_view(lists@) =~= empty_buckets().1);
    let mut rest = entries;
    let mut done: usize = 0;
    let total = rest.len();
    while rest.len() > 0
        invariant
            total == all.len(),
            up == user_profile_lower@,
            done + rest@.len() == total,
            forall|k: int| 0 <= k < rest@.len() ==> entry_view(#[trigger] rest@[k]) == all[done + k],
            sizes@ == buckets_after(all.take(done as int), up).0,
            lists_view(lists@) == buckets_after(all.take(done as int), up).1,
            sizes@.len() == CATEGORY_COUNT,
            lists@.len() == CATEGORY_COUNT,
        decreases rest@.len(),
    {
        let ghost rest0 = rest@;
        let e = rest.remove(0);
        assert(entry_view(e) == entry_view(rest0[0]));
        let ghost ev = entry_view(e);
        assert(ev == all[done as int]);
        proof {
            assert forall|k: int| 0 <= k < rest@.len() implies entry_view(#[trigger] rest@[k]) == all[done + 1 + k] by {
                assert(rest@[k] == rest0[k + 1]);
            }
            law_buckets_sorted_and_bounded(all.take(done as int), up);
            assert(all.take(done + 1).drop_last() =~= all.take(done as int));
        }
        let lowered = to_ascii_lowercase(e.path.as_str());
        let form = replace_char_str(lowered.as_str(), '/', '\\');
        let cat = classify_path(form.as_str(), user_profile_lower);
        let ci = category_position(cat);
        let grown = sizes[ci].saturating_add(e.size);
        sizes.set(ci, grown);
        let ghost b0 = buckets_after(all.take(done as int), up);
        let ghost lists0 = lists@;
        let mut items = lists.remove(ci);
        proof {
            assert(items == lists0[ci as int]);
            assert(lists_view(lists0)[ci as int] == entries_view(items@));
            assert(entries_view(items@) == b0.1[ci as int]);
            assert(entries_sorted_desc(b0.1[ci as int]));
            assert(entries_view(items@).len() == items@.len());
        }
        keep_top_exec(&mut items, e);
        lists.insert(ci, items);
        proof {
            let b1 = buckets_after(all.take(done + 1), up);
            assert(b1 == bucket_add(b0, ev, up));
            assert(category_index(category_of(explain_form(ev.0), up)) == ci);
            assert forall|k: int| 0 <= k < CATEGORY_COUNT implies #[trigger] lists_view(lists@)[k] == b1.1[k] by {
                if k != ci {
                    assert(lists@[k] == lists0[k]);
                    assert(lists_view(lists0)[k] == b0.1[k]);
                }
            }
            assert(lists_view(lists@) =~= b1.1);
            assert(sizes@ =~= b1.0);
        }
        done = done + 1;
    }
    assert(all.take(total as int) =~= all);
    (sizes, lists)
}

// ---------------------------------------------------------------------------
// The entries a scan hands to the categories
// ---------------------------------------------------------------------------

/// The name given to the files of the root that are not listed one by one.
pub const ROOT_OTHER_FILES_NAME: &'static str = "根目录其他文件";

pub open spec fn dir_entry(n: DirectoryNode) -> (Seq<char>, Seq<char>, u64, bool) {
    (n.path@, n.name@, n.size, true)
}

pub open spec fn file_entry(f: FileInfo) -> (Seq<char>, Seq<char>, u64, bool) {
    (f.path@, f.name@, f.size, false)
}

pub open spec fn dir_entries(ns: Seq<DirectoryNode>) -> Seq<(Seq<char>, Seq<char>, u64, bool)> {
    Seq::new(ns.len(), |i: int| dir_entry(ns[i]))
}

/// A directory's listed children, or the directory itself when it has no
/// listing.
pub open spec fn listing_or_self(kids: Map<Seq<char>, Seq<DirectoryNode>>, n: DirectoryNode) -> Seq<
    (Seq<char>, Seq<char>, u64, bool),
> {
    if kids.contains_key(index_key(n.path@)) {
        dir_entries(kids[index_key(n.path@)])
    } else {
        seq![dir_entry(n)]
    }
}

/// For each user directory in order, its listing or itself.
pub open spec fn users_entries(kids: Map<Seq<char>, Seq<DirectoryNode>>, uds: Seq<DirectoryNode>) -> Seq<
    (Seq<char>, Seq<char>, u64, bool),
>
    decreases uds.len(),
{
    if uds.len() == 0 {
        Seq::empty()
    } else {
        users_entries(kids, uds.drop_last()) + listing_or_self(kids, uds.last())
    }
}

/// The file lies directly in the scan root: its parent, lowercased with
/// `/` read as `\` and trailing `\` dropped, is the root lowercased with
/// trailing `\` dropped.
pub open spec fn in_root(file_path: Seq<char>, root: Seq<char>) -> bool {
    match parent_path_spec(file_path) {
        Some(par) => trim_end_char(explain_form(par), '\\') == trim_end_char(ascii_lower(root), '\\'),
        None => false,
    }
}

/// The files that lie directly in the root, in order.
pub open spec fn root_files(fs: Seq<FileInfo>, root: Seq<char>) -> Seq<FileInfo>
    decreases fs.len(),
{
    if fs.len() == 0 {
        Seq::empty()
    } else if in_root(fs.last().path@, root) {
        root_files(fs.drop_last(), root).push(fs.last())
    } else {
        root_files(fs.drop_last(), root)
    }
}

/// The total size of files, saturating at the largest `u64`.
pub open spec fn sat_size_sum(fs: Seq<FileInfo>) -> int
    decreases fs.len(),
{
    if fs.len() == 0 {
        0
    } else {
        sat_u64(sat_size_sum(fs.drop_last()) + fs.last().size)
    }
}

/// For the node of the root's own files: each file that lies directly in
/// the root, then what the node holds beyond them, if anything.
pub open spec fn root_files_entries(files: Seq<FileInfo>, root: Seq<char>, c: DirectoryNode) -> Seq<
    (Seq<char>, Seq<char>, u64, bool),
> {
    let fs = root_files(files, root);
    let rem = c.size - sat_size_sum(fs);
    Seq::new(fs.len(), |i: int| file_entry(fs[i])) + if rem > 0 {
        seq![(c.path@, ROOT_OTHER_FILES_NAME@, rem as u64, false)]
    } else {
        Seq::empty()
    }
}

/// What one top-level entry of the scan hands to the categories: the root's
/// files, the users' directories (one level further down), ProgramData's
/// directories, or the entry itself.
pub open spec fn child_entries(
    kids: Map<Seq<char>, Seq<DirectoryNode>>,
    files: Seq<FileInfo>,
    root: Seq<char>,
    c: DirectoryNode,
) -> Seq<(Seq<char>, Seq<char>, u64, bool)> {
    if c.name@ == ROOT_FILES_NODE_NAME@ {
        root_files_entries(files, root, c)
    } else if ascii_lower(c.name@) == "users"@ {
        if kids.contains_key(index_key(c.path@)) {
            users_entries(kids, kids[index_key(c.path@)])
        } else {
            seq![dir_entry(c)]
        }
    } else if ascii_lower(c.name@) == "programdata"@ {
        listing_or_self(kids, c)
    } else {
        seq![dir_entry(c)]
    }
}

pub open spec fn walk_entries(
    kids: Map<Seq<char>, Seq<DirectoryNode>>,
    files: Seq<FileInfo>,
    root: Seq<char>,
    cs: Seq<DirectoryNode>,
) -> Seq<(Seq<char>, Seq<char>, u64, bool)>
    decreases cs.len(),
{
    if cs.len() == 0 {
        Seq::empty()
    } else {
        walk_entries(kids, files, root, cs.drop_last()) + child_entries(kids, files, root, cs.last())
    }
}

/// Every entry a scan hands to the categories, in order.
pub open spec fn breakdown_entries(ix: IndexedScanResult) -> Seq<(Seq<char>, Seq<char>, u64, bool)> {
    walk_entries(ix.children_map(), ix.large_files_view(), ix.root_view(), ix.root_children_view())
}

fn push_dir_entry(out: &mut Vec<BucketEntry>, n: &DirectoryNode)
    ensures
        entries_view(final(out)@) == entries_view(old(out)@).push(dir_entry(*n)),
{
    out.push(BucketEntry { path: n.path.clone(), name: n.name.clone(), size: n.size, is_dir: true });
    assert(entries_view(out@) =~= entries_view(old(out)@).push(dir_entry(*n)));
}

fn push_dir_entries(out: &mut Vec<BucketEntry>, ns: &Vec<DirectoryNode>)
    ensures
        entries_view(final(out)@) == entries_view(old(out)@) + dir_entries(ns@),
{
    let ghost start = entries_view(out@);
    let mut i: usize = 0;
    while i < ns.len()
        invariant
            i <= ns@.len(),
            entries_view(out@) == start + dir_entries(ns@.take(i as int)),
        decreases ns@.len() - i,
    {
        push_dir_entry(out, &ns[i]);
        assert(dir_entries(ns@.take(i + 1)) =~= dir_entries(ns@.take(i as int)).push(dir_entry(ns@[i as int])));
        i = i + 1;
    }
    assert(ns@.take(ns@.len() as int) =~= ns@);
}

fn push_listing_or_self(out: &mut Vec<BucketEntry>, indexed: &IndexedScanResult, n: &DirectoryNode)
    ensures
        entries_view(final(out)@) == entries_view(old(out)@) + listing_or_self(indexed.children_map(), *n),
{
    match indexed.children_of(n.path.as_str()) {
        Some(ns) => {
            push_dir_entries(out, ns);
        },
        None => {
            push_dir_entry(out, n);
            assert(entries_view(old(out)@).push(dir_entry(*n)) =~= entries_view(old(out)@) + seq![dir_entry(*n)]);
        },
    }
}

fn push_users(out: &mut Vec<BucketEntry>, indexed: &IndexedScanResult, uds: &Vec<DirectoryNode>)
    ensures
        entries_view(final(out)@) == entries_view(old(out)@) + users_entries(indexed.children_map(), uds@),
{
    let ghost start = entries_view(out@);
    let ghost kids = indexed.children_map();
    let mut i: usize = 0;
    while i < uds.len()
        invariant
            i <= uds@.len(),
            kids == indexed.children_map(),
            entries_view(out@) == start + users_entries(kids, uds@.take(i as int)),
        decreases uds@.len() - i,
    {
        let ghost mid = entries_view(out@);
        push_listing_or_self(out, indexed, &uds[i]);
        proof {
            let t = uds@.take(i + 1);
            assert(t.drop_last() =~= uds@.take(i as int));
            assert(t.last() == uds@[i as int]);
            assert(users_entries(kids, t) == users_entries(kids, uds@.take(i as int)) + listing_or_self(kids, uds@[i as int]));
            assert(entries_view(out@) =~= start + users_entries(kids, t));
        }
        i = i + 1;
    }
    assert(uds@.take(uds@.len() as int) =~= uds@);
}

/// Whether a file lies directly in the root (see [`in_root`]); `root_form`
/// is the root lowercased with trailing `\` dropped.
fn file_in_root(file_path: &str, root_form: &str) -> (r: bool)
    ensures
        r == match parent_path_spec(file_path@) {
            Some(par) => trim_end_char(explain_form(par), '\\') == root_form@,
            None => false,
        },
{
    match parent_path(file_path) {
        Some(par) => {
            let lowered = to_ascii_lowercase(par.as_str());
            let form = replace_char_str(lowered.as_str(), '/', '\\');
            let trimmed = trim_end_char_str(form.as_str(), '\\');
            str_eq(trimmed.as_str(), root_form)
        },
        None => false,
    }
}

fn push_root_files(out: &mut Vec<BucketEntry>, indexed: &IndexedScanResult, c: &DirectoryNode)
    ensures
        entries_view(final(out)@) == entries_view(old(out)@) + root_files_entries(
            indexed.large_files_view(),
            indexed.root_view(),
            *c,
        ),
{
    let ghost start = entries_view(out@);
    let ghost root = indexed.root_view();
    let root_lower = to_ascii_lowercase(indexed.root_path());
    let root_form = trim_end_char_str(root_lower.as_str(), '\\');
    let files = indexed.large_files_iter();
    let ghost fsv = files@;
    let mut accounted: u64 = 0;
    let mut i: usize = 0;
    while i < files.len()
        invariant
            i <= fsv.len(),
            fsv == files@,
            root_form@ == trim_end_char(ascii_lower(root), '\\'),
            entries_view(out@) == start + Seq::new(
                root_files(fsv.take(i as int), root).len(),
                |k: int| file_entry(root_files(fsv.take(i as int), root)[k]),
            ),
            accounted == sat_size_sum(root_files(fsv.take(i as int), root)),
        decreases fsv.len() - i,
    {
        let f = &files[i];
        let ghost before = root_files(fsv.take(i as int), root);
        proof {
            assert(fsv.take(i + 1).drop_last() =~= fsv.take(i as int));
            assert(fsv.take(i + 1).last() == fsv[i as int]);
        }
        if file_in_root(f.path.as_str(), root_form.as_str()) {
            let ghost ov = out@;
            out.push(BucketEntry { path: f.path.clone(), name: f.name.clone(), size: f.size, is_dir: false });
            accounted = accounted.saturating_add(f.size);
            proof {
                let after = root_files(fsv.take(i + 1), root);
                assert(after == before.push(fsv[i as int]));
                assert(after.drop_last() =~= before);
                assert(entries_view(out@) =~= entries_view(ov).push(file_entry(fsv[i as int])));
                assert(Seq::new(after.len(), |k: int| file_entry(after[k])) =~= Seq::new(before.len(), |k: int| file_entry(before[k])).push(file_entry(fsv[i as int])));
                assert(entries_view(out@) =~= start + Seq::new(after.len(), |k: int| file_entry(after[k])));
            }
        }
        i = i + 1;
    }
    assert(fsv.take(fsv.len() as int) =~= fsv);
    let ghost fs = root_files(fsv, root);
    let ghost mid = entries_view(out@);
    let remaining = c.size.saturating_sub(accounted);
    if remaining > 0 {
        let ghost ov = out@;
        out.push(BucketEntry { path: c.path.clone(), name: owned(ROOT_OTHER_FILES_NAME), size: remaining, is_dir: false });
        assert(entries_view(out@) =~= entries_view(ov).push((c.path@, ROOT_OTHER_FILES_NAME@, remaining, false)));
        assert(entries_view(out@) =~= start + (Seq::new(fs.len(), |k: int| file_entry(fs[k])) + seq![
            (c.path@, ROOT_OTHER_FILES_NAME@, remaining, false),
        ]));
    } else {
        assert(entries_view(out@) =~= start + (Seq::new(fs.len(), |k: int| file_entry(fs[k])) + Seq::empty()));
    }
}

fn push_child(out: &mut Vec<BucketEntry>, indexed: &IndexedScanResult, c: &DirectoryNode)
    ensures
        entries_view(final(out)@) == entries_view(old(out)@) + child_entries(
            indexed.children_map(),
            indexed.large_files_view(),
            indexed.root_view(),
            *c,
        ),
{
    if str_eq(c.name.as_str(), ROOT_FILES_NODE_NAME) {
        push_root_files(out, indexed, c);
        return;
    }
    let name_lower = to_ascii_lowercase(c.name.as_str());
    if str_eq(name_lower.as_str(), "users") {
        match indexed.children_of(c.path.as_str()) {
            Some(uds) => {
                push_users(out, indexed, uds);
            },
            None => {
                push_dir_entry(out, c);
                assert(entries_view(old(out)@).push(dir_entry(*c)) =~= entries_view(old(out)@) + seq![dir_entry(*c)]);
            },
        }
    } else if str_eq(name_lower.as_str(), "programdata") {
        push_listing_or_self(out, indexed, c);
    } else {
        push_dir_entry(out, c);
        assert(entries_view(old(out)@).push(dir_entry(*c)) =~= entries_view(old(out)@) + seq![dir_entry(*c)]);
    }
}

/// Every entry a scan hands to the categories (see [`breakdown_entries`]).
pub fn breakdown_entries_of(indexed: &IndexedScanResult) -> (r: Vec<BucketEntry>)
    ensures
        entries_view(r@) == breakdown_entries(*indexed),
{
    let ghost kids = indexed.children_map();
    let ghost files = indexed.large_files_view();
    let ghost root = indexed.root_view();
    let cs = indexed.root_children();
    let mut out: Vec<BucketEntry> = Vec::new();
    let mut i: usize = 0;
    assert(entries_view(out@) =~= walk_entries(kids, files, root, cs@.take(0)));
    while i < cs.len()
        invariant
            i <= cs@.len(),
            cs@ == indexed.root_children_view(),
            kids == indexed.children_map(),
            files == indexed.large_files_view(),
            root == indexed.root_view(),
            entries_view(out@) == walk_entries(kids, files, root, cs@.take(i as int)),
        decreases cs@.len() - i,
    {
        push_child(&mut out, indexed, &cs[i]);
        proof {
            let t = cs@.take(i + 1);
            assert(t.drop_last() =~= cs@.take(i as int));
            assert(t.last() == cs@[i as int]);
        }
        i = i + 1;
    }
    assert(cs@.take(cs@.len() as int) =~= cs@);
    out
}

// ---------------------------------------------------------------------------
// The categories of the breakdown
// ---------------------------------------------------------------------------

/// One entry shown under a category.
pub struct BreakdownItem {
    pub path: String,
    pub name: String,
    pub size: u64,
    pub item_type: String,
    pub can_migrate: bool,
    pub can_delete: bool,
    pub explanation: String,
}

/// One category of the breakdown. Its share of the used space is computed
/// by the caller from `size` and the volume's used space.
pub struct BreakdownCategory {
    pub id: String,
    pub label: String,
    pub description: String,
    pub size: u64,
    pub item_count: usize,
    pub actionable: String,
    pub color: String,
    pub top_items: Vec<BreakdownItem>,
}

/// Where the space of a volume goes.
pub struct SpaceBreakdown {
    pub disk_path: String,
    pub disk_total: u64,
    pub disk_used: u64,
    pub disk_free: u64,
    pub system_reserved_bytes: u64,
    pub categories: Vec<BreakdownCategory>,
    pub actionable_total: u64,
    pub non_actionable_total: u64,
    pub analysis_duration_ms: u64,
}

pub open spec fn meta_id(m: int) -> Seq<char> {
    if m == 0 { "system"@ } else if m == 1 { "programs"@ } else if m == 2 { "user_data"@ } else if m == 3 {
        "app_data"@
    } else if m == 4 { "app_cache"@ } else if m == 5 { "dev_tools"@ } else if m == 6 { "temp"@ } else if m == 7 {
        "games"@
    } else if m == 8 { "system_reserved"@ } else { "other"@ }
}

pub open spec fn meta_label(m: int) -> Seq<char> {
    if m == 0 { "系统文件"@ } else if m == 1 { "安装程序"@ } else if m == 2 { "用户数据"@ } else if m == 3 {
        "应用数据"@
    } else if m == 4 { "应用缓存"@ } else if m == 5 { "开发工具"@ } else if m == 6 { "临时文件"@ } else if m == 7 {
        "游戏"@
    } else if m == 8 { "系统保留/卷元数据"@ } else { "其他"@ }
}

pub open spec fn meta_description(m: int) -> Seq<char> {
    if m == 0 {
        "Windows 系统核心文件"@
    } else if m == 1 {
        "Program Files 下的应用程序"@
    } else if m == 2 {
        "文档、桌面、下载等个人文件"@
    } else if m == 3 {
        "应用配置和运行数据"@
    } else if m == 4 {
        "浏览器缓存、IDE 缓存等"@
    } else if m == 5 {
        "node_modules、包管理缓存等"@
    } else if m == 6 {
        "系统/用户临时文件、日志、崩溃转储"@
    } else if m == 7 {
        "Steam / Epic / Game Pass 游戏库"@
    } else if m == 8 {
        "NTFS 元数据、MFT/USN、卷影副本和分配簇差额"@
    } else {
        "未分类的文件和目录"@
    }
}

/// How much of a category can be acted on: `full`, `partial`, `none` or
/// `unknown`.
pub open spec fn meta_actionable(m: int) -> Seq<char> {
    if is_full_category(m) {
        "full"@
    } else if is_partial_category(m) {
        "partial"@
    } else if m == 9 {
        "unknown"@
    } else {
        "none"@
    }
}

pub open spec fn meta_color(m: int) -> Seq<char> {
    if m == 0 { "#6b7280"@ } else if m == 1 { "#3b82f6"@ } else if m == 2 { "#10b981"@ } else if m == 3 {
        "#8b5cf6"@
    } else if m == 4 { "#f59e0b"@ } else if m == 5 { "#d97706"@ } else if m == 6 { "#ef4444"@ } else if m == 7 {
        "#ec4899"@
    } else if m == 8 { "#64748b"@ } else { "#9ca3af"@ }
}

/// Caches, developer tools, temporary files and games can be acted on in
/// full.
pub open spec fn is_full_category(m: int) -> bool {
    4 <= m <= 7
}

/// Programs and application data can be acted on in part.
pub open spec fn is_partial_category(m: int) -> bool {
    m == 1 || m == 3
}

fn category_meta(m: usize) -> (r: (&'static str, &'static str, &'static str, &'static str, &'static str))
    requires
        m < CATEGORY_COUNT,
    ensures
        r.0@ == meta_id(m as int),
        r.1@ == meta_label(m as int),
        r.2@ == meta_description(m as int),
        r.3@ == meta_actionable(m as int),
        r.4@ == meta_color(m as int),
{
    if m == 0 {
        ("system", "系统文件", "Windows 系统核心文件", "none", "#6b7280")
    } else if m == 1 {
        ("programs", "安装程序", "Program Files 下的应用程序", "partial", "#3b82f6")
    } else if m == 2 {
        ("user_data", "用户数据", "文档、桌面、下载等个人文件", "none", "#10b981")
    } else if m == 3 {
        ("app_data", "应用数据", "应用配置和运行数据", "partial", "#8b5cf6")
    } else if m == 4 {
        ("app_cache", "应用缓存", "浏览器缓存、IDE 缓存等", "full", "#f59e0b")
    } else if m == 5 {
        ("dev_tools", "开发工具", "node_modules、包管理缓存等", "full", "#d97706")
    } else if m == 6 {
        ("temp", "临时文件", "系统/用户临时文件、日志、崩溃转储", "full", "#ef4444")
    } else if m == 7 {
        ("games", "游戏", "Steam / Epic / Game Pass 游戏库", "full", "#ec4899")
    } else if m == 8 {
        ("system_reserved", "系统保留/卷元数据", "NTFS 元数据、MFT/USN、卷影副本和分配簇差额", "none", "#64748b")
    } else {
        ("other", "其他", "未分类的文件和目录", "unknown", "#9ca3af")
    }
}

/// A path that is the root of a collection of applications or users,
/// which is never moved as a whole.
pub open spec fn is_collection_root_spec(path: Seq<char>) -> bool {
    let n = trim_end_char(explain_form(path), '\\');
    ||| n == "c:\\program files"@
    ||| n == "c:\\program files (x86)"@
    ||| n == "c:\\programdata"@
    ||| n == "c:\\users"@
}

/// Whether a path is a collection root (see [`is_collection_root_spec`]).
pub fn is_collection_root(path: &str) -> (r: bool)
    ensures
        r == is_collection_root_spec(path@),
{
    let lowered = to_ascii_lowercase(path);
    let form = replace_char_str(lowered.as_str(), '/', '\\');
    let n = trim_end_char_str(form.as_str(), '\\');
    let s = n.as_str();
    str_eq(s, "c:\\program files") || str_eq(s, "c:\\program files (x86)") || str_eq(s, "c:\\programdata") || str_eq(
        s,
        "c:\\users",
    )
}

/// The name of the item that stands for the volume's reserved space.
pub const RESERVED_ITEM_NAME: &'static str = "卷级系统保留空间";

/// What the item that stands for the volume's reserved space says.
pub const RESERVED_ITEM_EXPLANATION: &'static str =
    "这部分不属于普通目录树，通常来自 NTFS 元数据、MFT/USN 日志、卷影副本、还原点或簇分配差额。";

/// An item built from an entry of category `m`.
pub open spec fn item_matches(
    it: BreakdownItem,
    e: (Seq<char>, Seq<char>, u64, bool),
    m: int,
    rules: Seq<crate::explain::ExplainRule>,
) -> bool {
    &&& it.path@ == e.0
    &&& it.name@ == e.1
    &&& it.size == e.2
    &&& it.item_type@ == if e.3 { "directory"@ } else { "file"@ }
    &&& it.can_migrate == ((is_full_category(m) || is_partial_category(m)) && !is_collection_root_spec(e.0))
    &&& it.can_delete == explained(rules, e.0).2
    &&& it.explanation@ == explained(rules, e.0).0
}

/// The item that stands for the reserved space of the volume at `root`.
pub open spec fn reserved_item_matches(it: BreakdownItem, root: Seq<char>, size: u64) -> bool {
    &&& it.path@ == root
    &&& it.name@ == RESERVED_ITEM_NAME@
    &&& it.size == size
    &&& it.item_type@ == "directory"@
    &&& !it.can_migrate
    &&& !it.can_delete
    &&& it.explanation@ == RESERVED_ITEM_EXPLANATION@
}

/// Category `m` of size `size`, built from its kept entries `items`.
pub open spec fn category_matches(
    c: BreakdownCategory,
    m: int,
    size: u64,
    items: Seq<(Seq<char>, Seq<char>, u64, bool)>,
    root: Seq<char>,
    rules: Seq<crate::explain::ExplainRule>,
) -> bool {
    &&& c.id@ == meta_id(m)
    &&& c.label@ == meta_label(m)
    &&& c.description@ == meta_description(m)
    &&& c.actionable@ == meta_actionable(m)
    &&& c.color@ == meta_color(m)
    &&& c.size == size
    &&& c.item_count == c.top_items@.len()
    &&& if m == 8 && size > 0 {
        c.top_items@.len() == 1 && reserved_item_matches(c.top_items@[0], root, size)
    } else {
        c.top_items@.len() == items.len() && forall|k: int|
            0 <= k < items.len() ==> #[trigger] item_matches(c.top_items@[k], items[k], m, rules)
    }
}

fn build_item(e: &BucketEntry, m: usize, engine: &ExplainEngine) -> (it: BreakdownItem)
    requires
        engine.wf(),
        m < CATEGORY_COUNT,
    ensures
        item_matches(it, entry_view(*e), m as int, engine.rules_view()),
{
    let ex = explain_path(engine, e.path.as_str());
    let movable = 4 <= m && m <= 7 || m == 1 || m == 3;
    let can_migrate = movable && !is_collection_root(e.path.as_str());
    BreakdownItem {
        path: e.path.clone(),
        name: e.name.clone(),
        size: e.size,
        item_type: if e.is_dir { owned("directory") } else { owned("file") },
        can_migrate,
        can_delete: ex.safe_to_delete,
        explanation: ex.explanation,
    }
}

fn build_category(m: usize, size: u64, items: &Vec<BucketEntry>, root: &str, engine: &ExplainEngine) -> (c:
    BreakdownCategory)
    requires
        engine.wf(),
        m < CATEGORY_COUNT,
    ensures
        category_matches(c, m as int, size, entries_view(items@), root@, engine.rules_view()),
{
    let (id, label, description, actionable, color) = category_meta(m);
    let mut top_items: Vec<BreakdownItem> = Vec::new();
    if m == 8 && size > 0 {
        top_items.push(BreakdownItem {
            path: owned(root),
            name: owned(RESERVED_ITEM_NAME),
            size,
            item_type: owned("directory"),
            can_migrate: false,
            can_delete: false,
            explanation: owned(RESERVED_ITEM_EXPLANATION),
        });
    } else {
        let mut k: usize = 0;
        while k < items.len()
            invariant
                k <= items@.len(),
                engine.wf(),
                m < CATEGORY_COUNT,
                top_items@.len() == k,
                forall|j: int| 0 <= j < k ==> #[trigger] item_matches(top_items@[j], entry_view(items@[j]), m as int, engine.rules_view()),
            decreases items@.len() - k,
        {
            let it = build_item(&items[k], m, engine);
            top_items.push(it);
            k = k + 1;
        }
    }
    let item_count = top_items.len();
    BreakdownCategory {
        id: owned(id),
        label: owned(label),
        description: owned(description),
        size,
        item_count,
        actionable: owned(actionable),
        color: owned(color),
        top_items,
    }
}

/// The size of category `m`: its bucket, or the reserved space for the
/// reserved category.
pub open spec fn category_size(sizes: Seq<u64>, reserved: u64, m: int) -> u64 {
    if m == 8 {
        reserved
    } else {
        sizes[m]
    }
}

/// The sort keys of the categories: all of one rank, by size.
pub open spec fn category_keys(sizes: Seq<u64>, reserved: u64) -> Seq<(u64, u64)> {
    Seq::new(CATEGORY_COUNT as nat, |m: int| (0u64, category_size(sizes, reserved, m)))
}

/// The actionable and non-actionable totals over the first `m` categories:
/// a category acted on in full counts whole, one acted on in part counts
/// half (rounded down), any other counts as not actionable; sums saturate.
pub open spec fn actionable_upto(sizes: Seq<u64>, reserved: u64, m: int) -> (int, int)
    decreases m,
{
    if m <= 0 {
        (0, 0)
    } else {
        let prev = actionable_upto(sizes, reserved, m - 1);
        let s = category_size(sizes, reserved, m - 1);
        if is_full_category(m - 1) {
            (sat_u64(prev.0 + s), prev.1)
        } else if is_partial_category(m - 1) {
            (sat_u64(prev.0 + s / 2), prev.1)
        } else {
            (prev.0, sat_u64(prev.1 + s))
        }
    }
}

/// The breakdown of a scan (see [`SpaceBreakdown`]) with the analysis time
/// given: the entries of [`breakdown_entries`] sorted into buckets by
/// [`buckets_after`], the reserved space (used space beyond the scanned
/// total), the ten categories in a stable order by size, largest first, and
/// the actionable totals of [`actionable_upto`].
pub fn breakdown_of(
    indexed: &IndexedScanResult,
    disk_total: u64,
    disk_used: u64,
    user_profile_lower: &str,
    engine: &ExplainEngine,
    analysis_duration_ms: u64,
) -> (r: SpaceBreakdown)
    requires
        engine.wf(),
    ensures
        r.disk_path@ == indexed.root_view(),
        r.disk_total == disk_total,
        r.disk_used == disk_used,
        r.disk_free == if disk_total >= disk_used { disk_total - disk_used } else { 0 },
        r.system_reserved_bytes == if disk_used >= indexed.total_size_view() {
            disk_used - indexed.total_size_view()
        } else {
            0
        },
        r.analysis_duration_ms == analysis_duration_ms,
        r.categories@.len() == CATEGORY_COUNT,
        ({
            let b = buckets_after(breakdown_entries(*indexed), user_profile_lower@);
            &&& exists|p: Seq<usize>|
                is_stable_key_order(category_keys(b.0, r.system_reserved_bytes), p) && forall|k: int|
                    0 <= k < CATEGORY_COUNT ==> #[trigger] category_matches(
                        r.categories@[k],
                        p[k] as int,
                        category_size(b.0, r.system_reserved_bytes, p[k] as int),
                        b.1[p[k] as int],
                        indexed.root_view(),
                        engine.rules_view(),
                    )
            &&& r.actionable_total == actionable_upto(b.0, r.system_reserved_bytes, CATEGORY_COUNT as int).0
            &&& r.non_actionable_total == actionable_upto(b.0, r.system_reserved_bytes, CATEGORY_COUNT as int).1
        }),
{
    let ghost up = user_profile_lower@;
    let entries = breakdown_entries_of(indexed);
    let ghost es = entries_view(entries@);
    let (sizes, lists) = fill_buckets(entries, user_profile_lower);
    let ghost b = buckets_after(es, up);
    proof {
        law_buckets_sorted_and_bounded(es, up);
    }
    let root = indexed.root_path();
    let reserved = disk_used.saturating_sub(indexed.total_size());
    let mut keys: Vec<(u64, u64)> = Vec::new();
    let mut m: usize = 0;
    while m < CATEGORY_COUNT
        invariant
            m <= CATEGORY_COUNT,
            sizes@ == b.0,
            b.0.len() == CATEGORY_COUNT,
            keys@ == category_keys(b.0, reserved).take(m as int),
        decreases CATEGORY_COUNT - m,
    {
        let size = if m == 8 { reserved } else { sizes[m] };
        keys.push((0, size));
        assert(keys@ =~= category_keys(b.0, reserved).take(m + 1));
        m = m + 1;
    }
    assert(keys@ =~= category_keys(b.0, reserved));
    let order = stable_key_order(&keys);
    let mut categories: Vec<BreakdownCategory> = Vec::new();
    let mut k: usize = 0;
    while k < CATEGORY_COUNT
        invariant
            k <= CATEGORY_COUNT,
            engine.wf(),
            sizes@ == b.0,
            b.0.len() == CATEGORY_COUNT,
            b.1.len() == CATEGORY_COUNT,
            lists_view(lists@) == b.1,
            lists@.len() == CATEGORY_COUNT,
            root@ == indexed.root_view(),
            is_stable_key_order(category_keys(b.0, reserved), order@),
            categories@.len() == k,
            forall|j: int| 0 <= j < k ==> #[trigger] category_matches(
                categories@[j],
                order@[j] as int,
                category_size(b.0, reserved, order@[j] as int),
                b.1[order@[j] as int],
                indexed.root_view(),
                engine.rules_view(),
            ),
        decreases CATEGORY_COUNT - k,
    {
        let cm = order[k];
        let size = if cm == 8 { reserved } else { sizes[cm] };
        assert(lists_view(lists@)[cm as int] == entries_view(lists@[cm as int]@));
        let c = build_category(cm, size, &lists[cm], root, engine);
        categories.push(c);
        k = k + 1;
    }
    let mut actionable_total: u64 = 0;
    let mut non_actionable_total: u64 = 0;
    let mut m: usize = 0;
    while m < CATEGORY_COUNT
        invariant
            m <= CATEGORY_COUNT,
            sizes@ == b.0,
            b.0.len() == CATEGORY_COUNT,
            actionable_total == actionable_upto(b.0, reserved, m as int).0,
            non_actionable_total == actionable_upto(b.0, reserved, m as int).1,
        decreases CATEGORY_COUNT - m,
    {
        let size = if m == 8 { reserved } else { sizes[m] };
        if 4 <= m && m <= 7 {
            actionable_total = actionable_total.saturating_add(size);
        } else if m == 1 || m == 3 {
            actionable_total = actionable_total.saturating_add(size / 2);
        } else {
            non_actionable_total = non_actionable_total.saturating_add(size);
        }
        m = m + 1;
    }
    SpaceBreakdown {
        disk_path: owned(root),
        disk_total,
        disk_used,
        disk_free: disk_total.saturating_sub(disk_used),
        system_reserved_bytes: reserved,
        categories,
        actionable_total,
        non_actionable_total,
        analysis_duration_ms,
    }
}

/// The breakdown of a scan (see [`breakdown_of`]), timed by the clock.
pub fn analyze_space_breakdown(
    indexed: &IndexedScanResult,
    disk_total: u64,
    disk_used: u64,
    user_profile_lower: &str,
    engine: &ExplainEngine,
) -> (r: SpaceBreakdown)
    requires
        engine.wf(),
    ensures
        r.disk_path@ == indexed.root_view(),
        r.disk_total == disk_total,
        r.disk_used == disk_used,
        r.disk_free == if disk_total >= disk_used { disk_total - disk_used } else { 0 },
        r.system_reserved_bytes == if disk_used >= indexed.total_size_view() {
            disk_used - indexed.total_size_view()
        } else {
            0
        },
        r.categories@.len() == CATEGORY_COUNT,
        ({
            let b = buckets_after(breakdown_entries(*indexed), user_profile_lower@);
            &&& exists|p: Seq<usize>|
                is_stable_key_order(category_keys(b.0, r.system_reserved_bytes), p) && forall|k: int|
                    0 <= k < CATEGORY_COUNT ==> #[trigger] category_matches(
                        r.categories@[k],
                        p[k] as int,
                        category_size(b.0, r.system_reserved_bytes, p[k] as int),
                        b.1[p[k] as int],
                        indexed.root_view(),
                        engine.rules_view(),
                    )
            &&& r.actionable_total == actionable_upto(b.0, r.system_reserved_bytes, CATEGORY_COUNT as int).0
            &&& r.non_actionable_total == actionable_upto(b.0, r.system_reserved_bytes, CATEGORY_COUNT as int).1
        }),
{
    let started = crate::clock::now_millis();
    let mut r = breakdown_of(indexed, disk_total, disk_used, user_profile_lower, engine, 0);
    let finished = crate::clock::now_millis();
    r.analysis_duration_ms = finished.saturating_sub(started);
    r
}

// ---------------------------------------------------------------------------
// Programs that could be moved
// ---------------------------------------------------------------------------

/// A program directory that could be moved, with what the safety analysis
/// said of it.
pub struct RelocatableProgram {
    pub path: String,
    pub name: String,
    pub size: u64,
    pub file_count: usize,
    pub verdict: String,
    pub verdict_reason: String,
    pub can_migrate: bool,
    pub app_type: String,
}

/// A program directory whose safety is to be analysed.
pub struct ProgramCandidate {
    pub path: String,
    pub name: String,
    pub size: u64,
    pub file_count: usize,
}

pub open spec fn candidate_of(n: DirectoryNode) -> (Seq<char>, Seq<char>, u64, usize) {
    (n.path@, n.name@, n.size, n.file_count)
}

pub open spec fn candidate_view(c: ProgramCandidate) -> (Seq<char>, Seq<char>, u64, usize) {
    (c.path@, c.name@, c.size, c.file_count)
}

/// Directories below Program Files that are never offered: the store's
/// packages and Defender.
pub open spec fn is_skipped_program(name: Seq<char>) -> bool {
    ascii_lower(name) == "windowsapps"@ || ascii_lower(name) == "windows defender"@
}

/// The directories of a listing that are not skipped, in order.
pub open spec fn kept_programs(ns: Seq<DirectoryNode>) -> Seq<(Seq<char>, Seq<char>, u64, usize)>
    decreases ns.len(),
{
    if ns.len() == 0 {
        Seq::empty()
    } else if is_skipped_program(ns.last().name@) {
        kept_programs(ns.drop_last())
    } else {
        kept_programs(ns.drop_last()).push(candidate_of(ns.last()))
    }
}

/// The kept directories listed under `dir`, none when it has no listing.
pub open spec fn programs_under(kids: Map<Seq<char>, Seq<DirectoryNode>>, dir: Seq<char>) -> Seq<
    (Seq<char>, Seq<char>, u64, usize),
> {
    if kids.contains_key(index_key(dir)) {
        kept_programs(kids[index_key(dir)])
    } else {
        Seq::empty()
    }
}

/// The program directories of a scan: those of `C:\Program Files`, then
/// those of `C:\Program Files (x86)`.
pub open spec fn program_candidates(ix: IndexedScanResult) -> Seq<(Seq<char>, Seq<char>, u64, usize)> {
    programs_under(ix.children_map(), "C:\\Program Files"@) + programs_under(
        ix.children_map(),
        "C:\\Program Files (x86)"@,
    )
}

fn push_programs_under(out: &mut Vec<ProgramCandidate>, indexed: &IndexedScanResult, dir: &str)
    ensures
        Seq::new(final(out)@.len(), |i: int| candidate_view(final(out)@[i])) == Seq::new(
            old(out)@.len(),
            |i: int| candidate_view(old(out)@[i]),
        ) + programs_under(indexed.children_map(), dir@),
{
    let ghost start = Seq::new(out@.len(), |i: int| candidate_view(out@[i]));
    match indexed.children_of(dir) {
        Some(ns) => {
            let mut i: usize = 0;
            while i < ns.len()
                invariant
                    i <= ns@.len(),
                    Seq::new(out@.len(), |j: int| candidate_view(out@[j])) == start + kept_programs(ns@.take(i as int)),
                decreases ns@.len() - i,
            {
                let n = &ns[i];
                proof {
                    assert(ns@.take(i + 1).drop_last() =~= ns@.take(i as int));
                    assert(ns@.take(i + 1).last() == ns@[i as int]);
                }
                let name_lower = to_ascii_lowercase(n.name.as_str());
                if !(str_eq(name_lower.as_str(), "windowsapps") || str_eq(name_lower.as_str(), "windows defender")) {
                    let ghost ov = out@;
                    out.push(ProgramCandidate { path: n.path.clone(), name: n.name.clone(), size: n.size, file_count: n.file_count });
                    assert(Seq::new(out@.len(), |j: int| candidate_view(out@[j])) =~= Seq::new(ov.len(), |j: int| candidate_view(ov[j])).push(candidate_of(*n)));
                }
                i = i + 1;
            }
            assert(ns@.take(ns@.len() as int) =~= ns@);
        },
        None => {
            assert(Seq::new(out@.len(), |i: int| candidate_view(out@[i])) =~= start + Seq::empty());
        },
    }
}

/// The program directories of a scan (see [`program_candidates`]), whose
/// safety the caller analyses before [`get_relocatable_programs`].
pub fn relocatable_candidates(indexed: &IndexedScanResult) -> (r: Vec<ProgramCandidate>)
    ensures
        Seq::new(r@.len(), |i: int| candidate_view(r@[i])) == program_candidates(*indexed),
{
    let mut out: Vec<ProgramCandidate> = Vec::new();
    assert(Seq::new(out@.len(), |i: int| candidate_view(out@[i])) =~= Seq::empty());
    push_programs_under(&mut out, indexed, "C:\\Program Files");
    push_programs_under(&mut out, indexed, "C:\\Program Files (x86)");
    assert(Seq::empty() + programs_under(indexed.children_map(), "C:\\Program Files"@) =~= programs_under(
        indexed.children_map(),
        "C:\\Program Files"@,
    ));
    out
}

/// The name a verdict is shown by.
pub open spec fn verdict_text(v: Verdict) -> Seq<char> {
    match v {
        Verdict::Safe => "safe"@,
        Verdict::SafeAfterAction => "safe_after_action"@,
        Verdict::Blocked => "blocked"@,
        Verdict::SystemCritical => "system_critical"@,
    }
}

fn verdict_str(v: &Verdict) -> (r: &'static str)
    ensures
        r@ == verdict_text(*v),
{
    match v {
        Verdict::Safe => "safe",
        Verdict::SafeAfterAction => "safe_after_action",
        Verdict::Blocked => "blocked",
        Verdict::SystemCritical => "system_critical",
    }
}

/// Which kind of program a directory holds, from its name and its safety
/// verdict (development tools, games, office suites, blocked system parts).
pub open spec fn program_type(name: Seq<char>, verdict: Seq<char>) -> Seq<char> {
    let nl = ascii_lower(name);
    if table_hit(HitKind::Contains, Table::IdeKeywords, nl, Seq::empty()) {
        "ide"@
    } else if table_hit(HitKind::Contains, Table::GameKeywords, nl, Seq::empty()) {
        "game"@
    } else if table_hit(HitKind::Contains, Table::OfficeKeywords, nl, Seq::empty()) {
        "office"@
    } else if (contains_seq(nl, "windows"@) || contains_seq(nl, "microsoft"@)) && verdict == "blocked"@ {
        "system"@
    } else {
        "other"@
    }
}

/// The kind of a program (see [`program_type`]).
pub fn identify_program_type(name: &str, verdict: &str) -> (r: String)
    ensures
        r@ == program_type(name@, verdict@),
{
    let lowered = to_ascii_lowercase(name);
    let nl = lowered.as_str();
    proof {
        reveal_strlit("");
        assert(""@ =~= Seq::<char>::empty());
    }
    if table_hits(HitKind::Contains, Table::IdeKeywords, nl, "") {
        return owned("ide");
    }
    if table_hits(HitKind::Contains, Table::GameKeywords, nl, "") {
        return owned("game");
    }
    if table_hits(HitKind::Contains, Table::OfficeKeywords, nl, "") {
        return owned("office");
    }
    if (contains(nl, "windows") || contains(nl, "microsoft")) && str_eq(verdict, "blocked") {
        return owned("system");
    }
    owned("other")
}

/// What is said when the analysis found nothing.
pub const NO_KNOWN_RISK: &'static str = "无已知风险";

/// A program built from a candidate and its safety analysis.
pub open spec fn program_matches(
    p: RelocatableProgram,
    c: (Seq<char>, Seq<char>, u64, usize),
    s: MigrationSafety,
) -> bool {
    &&& p.path@ == c.0
    &&& p.name@ == c.1
    &&& p.size == c.2
    &&& p.file_count == c.3
    &&& p.verdict@ == verdict_text(s.verdict)
    &&& p.verdict_reason@ == if s.findings@.len() > 0 { s.findings@[0].message@ } else { NO_KNOWN_RISK@ }
    &&& p.can_migrate == s.can_migrate
    &&& p.app_type@ == program_type(c.1, verdict_text(s.verdict))
}

/// The sort keys of candidates: all of one rank, by size.
pub open spec fn size_keys(cs: Seq<(Seq<char>, Seq<char>, u64, usize)>) -> Seq<(u64, u64)> {
    Seq::new(cs.len(), |i: int| (0u64, cs[i].2))
}

/// The program directories of a scan with their safety analyses
/// (`safeties[i]` is that of candidate `i` of [`program_candidates`]), in a
/// stable order by size, largest first.
pub fn get_relocatable_programs(indexed: &IndexedScanResult, safeties: &Vec<MigrationSafety>) -> (r: Vec<
    RelocatableProgram,
>)
    requires
        safeties@.len() == program_candidates(*indexed).len(),
    ensures
        r@.len() == program_candidates(*indexed).len(),
        exists|p: Seq<usize>|
            is_stable_key_order(size_keys(program_candidates(*indexed)), p) && forall|k: int|
                0 <= k < r@.len() ==> #[trigger] program_matches(
                    r@[k],
                    program_candidates(*indexed)[p[k] as int],
                    safeties@[p[k] as int],
                ),
{
    let cands = relocatable_candidates(indexed);
    let ghost cv = program_candidates(*indexed);
    let mut keys: Vec<(u64, u64)> = Vec::new();
    let mut i: usize = 0;
    while i < cands.len()
        invariant
            i <= cands@.len(),
            Seq::new(cands@.len(), |j: int| candidate_view(cands@[j])) == cv,
            keys@ == size_keys(cv).take(i as int),
        decreases cands@.len() - i,
    {
        assert(candidate_view(cands@[i as int]) == cv[i as int]);
        keys.push((0, cands[i].size));
        assert(keys@ =~= size_keys(cv).take(i + 1));
        i = i + 1;
    }
    assert(keys@ =~= size_keys(cv));
    let order = stable_key_order(&keys);
    let mut out: Vec<RelocatableProgram> = Vec::new();
    let mut k: usize = 0;
    while k < order.len()
        invariant
            k <= order@.len(),
            order@.len() == cv.len(),
            safeties@.len() == cv.len(),
            Seq::new(cands@.len(), |j: int| candidate_view(cands@[j])) == cv,
            is_stable_key_order(size_keys(cv), order@),
            out@.len() == k,
            forall|j: int| 0 <= j < k ==> #[trigger] program_matches(out@[j], cv[order@[j] as int], safeties@[order@[j] as int]),
        decreases order@.len() - k,
    {
        let ci = order[k];
        let c = &cands[ci];
        let s = &safeties[ci];
        assert(candidate_view(cands@[ci as int]) == cv[ci as int]);
        let verdict = verdict_str(&s.verdict);
        let verdict_reason = if s.findings.len() > 0 {
            s.findings[0].message.clone()
        } else {
            owned(NO_KNOWN_RISK)
        };
        let app_type = identify_program_type(c.name.as_str(), verdict);
        out.push(RelocatableProgram {
            path: c.path.clone(),
            name: c.name.clone(),
            size: c.size,
            file_count: c.file_count,
            verdict: owned(verdict),
            verdict_reason,
            can_migrate: s.can_migrate,
            app_type,
        });
        k = k + 1;
    }
    out
}

// ---------------------------------------------------------------------------
// Balancing two volumes
// ---------------------------------------------------------------------------

/// What the balance plan reads of a volume.
pub struct DiskInfo {
    pub drive_letter: String,
    pub used_space: u64,
    pub free_space: u64,
}

/// One entry the plan proposes to move or redirect.
pub struct BalanceItem {
    pub path: String,
    pub name: String,
    pub size: u64,
    pub category: String,
    pub action: String,
    pub priority: u8,
}

/// A plan to move entries from the analysed volume to the volume with the
/// most free space.
pub struct BalanceSuggestion {
    pub source_disk: String,
    pub target_disk: String,
    pub current_source_used: u64,
    pub current_target_used: u64,
    pub projected_source_used: u64,
    pub projected_target_used: u64,
    pub total_movable: u64,
    pub suggested_items: Vec<BalanceItem>,
}

/// A category whose entries can be acted on, in full or in part.
pub open spec fn is_acted_category(c: BreakdownCategory) -> bool {
    c.actionable@ == "full"@ || c.actionable@ == "partial"@
}

/// The movable entries among the first `k` of category `ci`, as (category,
/// entry) positions.
pub open spec fn movable_items(c: BreakdownCategory, ci: usize, k: int) -> Seq<(usize, usize)>
    decreases k,
{
    if k <= 0 {
        Seq::empty()
    } else if c.top_items@[k - 1].can_migrate {
        movable_items(c, ci, k - 1).push((ci, (k - 1) as usize))
    } else {
        movable_items(c, ci, k - 1)
    }
}

/// The entries offered from the first `i` categories.
pub open spec fn offers_upto(cats: Seq<BreakdownCategory>, i: int) -> Seq<(usize, usize)>
    decreases i,
{
    if i <= 0 {
        Seq::empty()
    } else if is_acted_category(cats[i - 1]) {
        offers_upto(cats, i - 1) + movable_items(cats[i - 1], (i - 1) as usize, cats[i - 1].top_items@.len() as int)
    } else {
        offers_upto(cats, i - 1)
    }
}

/// The entries of a breakdown a balance plan may propose, in order: the
/// movable entries of the categories that can be acted on.
pub open spec fn balance_offers(b: SpaceBreakdown) -> Seq<(usize, usize)> {
    offers_upto(b.categories@, b.categories@.len() as int)
}

/// The entries a balance plan may propose (see [`balance_offers`]), whose
/// safety the caller analyses before [`suggest_balance`].
pub fn balance_candidates(b: &SpaceBreakdown) -> (r: Vec<(usize, usize)>)
    ensures
        r@ == balance_offers(*b),
{
    let cats = &b.categories;
    let mut out: Vec<(usize, usize)> = Vec::new();
    let mut i: usize = 0;
    while i < cats.len()
        invariant
            i <= cats@.len(),
            cats@ == b.categories@,
            out@ == offers_upto(cats@, i as int),
        decreases cats@.len() - i,
    {
        let c = &cats[i];
        if str_eq(c.actionable.as_str(), "full") || str_eq(c.actionable.as_str(), "partial") {
            let ghost start = out@;
            let mut k: usize = 0;
            while k < c.top_items.len()
                invariant
                    k <= c.top_items@.len(),
                    out@ == start + movable_items(*c, i, k as int),
                decreases c.top_items@.len() - k,
            {
                if c.top_items[k].can_migrate {
                    out.push((i, k));
                    assert(out@ =~= start + movable_items(*c, i, k + 1));
                }
                k = k + 1;
            }
        }
        i = i + 1;
    }
    out
}

/// A safety analysis that lets an entry be proposed.
pub open spec fn safety_allows(s: MigrationSafety) -> bool {
    !(s.verdict is Blocked || s.verdict is SystemCritical) && s.can_migrate
}

/// The first `j` offers whose safety allows them.
pub open spec fn allowed_offers(offers: Seq<(usize, usize)>, safeties: Seq<MigrationSafety>, j: int) -> Seq<
    (usize, usize),
>
    decreases j,
{
    if j <= 0 {
        Seq::empty()
    } else if safety_allows(safeties[j - 1]) {
        allowed_offers(offers, safeties, j - 1).push(offers[j - 1])
    } else {
        allowed_offers(offers, safeties, j - 1)
    }
}

/// Caches and temporary files come first, then developer tools and games,
/// then the rest.
pub open spec fn offer_priority(id: Seq<char>) -> u8 {
    if id == "app_cache"@ || id == "temp"@ {
        1
    } else if id == "dev_tools"@ || id == "games"@ {
        2
    } else {
        3
    }
}

/// Temporary files and caches are redirected, the rest migrated.
pub open spec fn offer_action(id: Seq<char>) -> Seq<char> {
    if id == "temp"@ || id == "app_cache"@ {
        "redirect"@
    } else {
        "migrate"@
    }
}

/// The sort keys of the proposed entries: priority, then size.
pub open spec fn offer_keys(cats: Seq<BreakdownCategory>, offers: Seq<(usize, usize)>) -> Seq<(u64, u64)> {
    Seq::new(
        offers.len(),
        |j: int|
            (
                offer_priority(cats[offers[j].0 as int].id@) as u64,
                cats[offers[j].0 as int].top_items@[offers[j].1 as int].size,
            ),
    )
}

/// A proposed entry built from entry `o` of the breakdown's categories.
pub open spec fn balance_item_matches(it: BalanceItem, cats: Seq<BreakdownCategory>, o: (usize, usize)) -> bool {
    let c = cats[o.0 as int];
    let e = c.top_items@[o.1 as int];
    &&& it.path@ == e.path@
    &&& it.name@ == e.name@
    &&& it.size == e.size
    &&& it.category@ == c.id@
    &&& it.action@ == offer_action(c.id@)
    &&& it.priority == offer_priority(c.id@)
}

/// A volume other than the source (`\` dropped from the source's end, the
/// letters compared without regard to ASCII case).
pub open spec fn other_disk(d: DiskInfo, source: Seq<char>) -> bool {
    ascii_lower(d.drive_letter@) != ascii_lower(trim_end_char(source, '\\'))
}

/// Among the first `i` volumes other than the source, the one with the
/// most free space; the last of several equal ones.
pub open spec fn best_target(ds: Seq<DiskInfo>, source: Seq<char>, i: int) -> Option<int>
    decreases i,
{
    if i <= 0 {
        None
    } else {
        let prev = best_target(ds, source, i - 1);
        if other_disk(ds[i - 1], source) && (prev is None || ds[i - 1].free_space >= ds[prev->0].free_space) {
            Some(i - 1)
        } else {
            prev
        }
    }
}

/// The total size of the proposed entries, saturating.
pub open spec fn offered_size(cats: Seq<BreakdownCategory>, offers: Seq<(usize, usize)>) -> int
    decreases offers.len(),
{
    if offers.len() == 0 {
        0
    } else {
        sat_u64(offered_size(cats, offers.drop_last()) + cats[offers.last().0 as int].top_items@[offers.last().1 as int].size)
    }
}

proof fn lemma_best_target_in_range(ds: Seq<DiskInfo>, source: Seq<char>, i: int)
    requires
        0 <= i <= ds.len(),
    ensures
        best_target(ds, source, i) matches Some(t) ==> 0 <= t < i && other_disk(ds[t], source),
    decreases i,
{
    if i > 0 {
        lemma_best_target_in_range(ds, source, i - 1);
    }
}

proof fn lemma_movable_items_in_range(c: BreakdownCategory, ci: usize, k: int)
    requires
        0 <= k <= c.top_items@.len(),
        c.top_items@.len() <= usize::MAX,
    ensures
        forall|q: int| 0 <= q < movable_items(c, ci, k).len() ==> (#[trigger] movable_items(c, ci, k)[q]).0 == ci
            && movable_items(c, ci, k)[q].1 < k,
    decreases k,
{
    if k > 0 {
        lemma_movable_items_in_range(c, ci, k - 1);
        let prev = movable_items(c, ci, k - 1);
        assert forall|q: int| 0 <= q < movable_items(c, ci, k).len() implies (#[trigger] movable_items(c, ci, k)[q]).0
            == ci && movable_items(c, ci, k)[q].1 < k by {
            if q < prev.len() {
                assert(movable_items(c, ci, k)[q] == prev[q]);
            } else {
                assert(movable_items(c, ci, k)[q] == (ci, (k - 1) as usize));
            }
        }
    }
}

proof fn lemma_offers_in_range(cats: Seq<BreakdownCategory>, i: int)
    requires
        0 <= i <= cats.len(),
        cats.len() <= usize::MAX,
        forall|x: int| 0 <= x < cats.len() ==> (#[trigger] cats[x]).top_items@.len() <= usize::MAX,
    ensures
        forall|q: int| 0 <= q < offers_upto(cats, i).len() ==> (#[trigger] offers_upto(cats, i)[q]).0 < i
            && offers_upto(cats, i)[q].1 < cats[offers_upto(cats, i)[q].0 as int].top_items@.len(),
    decreases i,
{
    if i > 0 {
        lemma_offers_in_range(cats, i - 1);
        let c = cats[i - 1];
        lemma_movable_items_in_range(c, (i - 1) as usize, c.top_items@.len() as int);
        let prev = offers_upto(cats, i - 1);
        let mv = movable_items(c, (i - 1) as usize, c.top_items@.len() as int);
        if is_acted_category(c) {
            assert forall|q: int| 0 <= q < offers_upto(cats, i).len() implies (#[trigger] offers_upto(cats, i)[q]).0 < i
                && offers_upto(cats, i)[q].1 < cats[offers_upto(cats, i)[q].0 as int].top_items@.len() by {
                if q < prev.len() {
                    assert(offers_upto(cats, i)[q] == prev[q]);
                } else {
                    assert(offers_upto(cats, i)[q] == mv[q - prev.len()]);
                }
            }
        }
    }
}

fn eq_ignore_ascii_case(a: &str, b: &str) -> (r: bool)
    ensures
        r == (ascii_lower(a@) == ascii_lower(b@)),
{
    let la = to_ascii_lowercase(a);
    let lb = to_ascii_lowercase(b);
    str_eq(la.as_str(), lb.as_str())
}

/// A plan to balance the analysed volume against the others.
/// `safeties[j]` is the safety analysis of offer `j` of
/// [`balance_offers`]. The target is the other volume with the most free
/// space (see [`best_target`]); the proposed entries are the offers whose
/// safety allows them, in a stable order by priority, then size, largest
/// first; what moves is their total size, at most the target's free space.
pub fn suggest_balance(disks: &Vec<DiskInfo>, breakdown: &SpaceBreakdown, safeties: &Vec<MigrationSafety>) -> (r:
    BalanceSuggestion)
    requires
        safeties@.len() == balance_offers(*breakdown).len(),
    ensures
        ({
            let cats = breakdown.categories@;
            let offers = balance_offers(*breakdown);
            let kept = allowed_offers(offers, safeties@, offers.len() as int);
            let target = best_target(disks@, breakdown.disk_path@, disks@.len() as int);
            let free = match target {
                Some(t) => disks@[t].free_space,
                None => 0,
            };
            let moved = if offered_size(cats, kept) < free { offered_size(cats, kept) } else { free as int };
            &&& r.source_disk@ == breakdown.disk_path@
            &&& r.target_disk@ == match target {
                Some(t) => disks@[t].drive_letter@.push('\\'),
                None => Seq::empty(),
            }
            &&& r.current_target_used == match target {
                Some(t) => disks@[t].used_space,
                None => 0,
            }
            &&& r.current_source_used == breakdown.disk_used
            &&& r.total_movable == moved
            &&& r.projected_source_used == if breakdown.disk_used >= moved { breakdown.disk_used - moved } else { 0 }
            &&& r.projected_target_used == sat_u64(r.current_target_used + moved)
            &&& r.suggested_items@.len() == kept.len()
            &&& exists|p: Seq<usize>|
                is_stable_key_order(offer_keys(cats, kept), p) && forall|k: int|
                    0 <= k < kept.len() ==> #[trigger] balance_item_matches(r.suggested_items@[k], cats, kept[p[k] as int])
        }),
{
    let ghost cats = breakdown.categories@;
    let offers = balance_candidates(breakdown);
    let ghost ov = offers@;
    // The target volume.
    let mut target: Option<usize> = None;
    let mut i: usize = 0;
    while i < disks.len()
        invariant
            i <= disks@.len(),
            target matches Some(t) ==> t as int == best_target(disks@, breakdown.disk_path@, i as int)->0 && t < i,
            target is None == best_target(disks@, breakdown.disk_path@, i as int) is None,
        decreases disks@.len() - i,
    {
        let src = trim_end_char_str(breakdown.disk_path.as_str(), '\\');
        let d = &disks[i];
        if !eq_ignore_ascii_case(d.drive_letter.as_str(), src.as_str()) {
            let better = match target {
                None => true,
                Some(t) => d.free_space >= disks[t].free_space,
            };
            if better {
                target = Some(i);
            }
        }
        i = i + 1;
    }
    proof {
        lemma_best_target_in_range(disks@, breakdown.disk_path@, disks@.len() as int);
    }
    let (target_disk, target_used, target_free) = match target {
        Some(t) => {
            let mut name = disks[t].drive_letter.clone();
            push_char(&mut name, '\\');
            (name, disks[t].used_space, disks[t].free_space)
        },
        None => (String::new(), 0u64, 0u64),
    };
    // The offers the safety analyses allow.
    proof {
        assert(cats.len() == breakdown.categories.len());
        assert forall|x: int| 0 <= x < cats.len() implies (#[trigger] cats[x]).top_items@.len() <= usize::MAX by {
            assert(cats[x].top_items@.len() == cats[x].top_items.len());
        }
        lemma_offers_in_range(cats, cats.len() as int);
    }
    let mut kept: Vec<(usize, usize)> = Vec::new();
    let mut total: u64 = 0;
    let mut j: usize = 0;
    while j < offers.len()
        invariant
            j <= ov.len(),
            ov == offers@,
            ov == balance_offers(*breakdown),
            safeties@.len() == ov.len(),
            kept@ == allowed_offers(ov, safeties@, j as int),
            total == offered_size(cats, kept@),
            cats == breakdown.categories@,
            forall|q: int| 0 <= q < ov.len() ==> (#[trigger] ov[q]).0 < cats.len() && ov[q].1 < cats[ov[q].0 as int].top_items@.len(),
            forall|q: int| 0 <= q < kept@.len() ==> (#[trigger] kept@[q]).0 < cats.len() && kept@[q].1 < cats[kept@[q].0 as int].top_items@.len(),
        decreases ov.len() - j,
    {
        let s = &safeties[j];
        let blocked = match s.verdict {
            Verdict::Blocked => true,
            Verdict::SystemCritical => true,
            _ => false,
        };
        if !blocked && s.can_migrate {
            let o = offers[j];
            let size = breakdown.categories[o.0].top_items[o.1].size;
            let ghost before = kept@;
            kept.push(o);
            total = total.saturating_add(size);
            assert(kept@.drop_last() =~= before);
        }
        j = j + 1;
    }
    // Their stable order by priority, then size.
    let mut keys: Vec<(u64, u64)> = Vec::new();
    let mut q: usize = 0;
    while q < kept.len()
        invariant
            q <= kept@.len(),
            cats == breakdown.categories@,
            keys@ == offer_keys(cats, kept@).take(q as int),
            forall|x: int| 0 <= x < kept@.len() ==> (#[trigger] kept@[x]).0 < cats.len() && kept@[x].1 < cats[kept@[x].0 as int].top_items@.len(),
        decreases kept@.len() - q,
    {
        let o = kept[q];
        let c = &breakdown.categories[o.0];
        let pr = category_priority(c.id.as_str());
        keys.push((pr as u64, c.top_items[o.1].size));
        assert(keys@ =~= offer_keys(cats, kept@).take(q + 1));
        q = q + 1;
    }
    assert(keys@ =~= offer_keys(cats, kept@));
    let order = stable_key_order(&keys);
    let mut items: Vec<BalanceItem> = Vec::new();
    let mut k: usize = 0;
    while k < order.len()
        invariant
            k <= order@.len(),
            order@.len() == kept@.len(),
            cats == breakdown.categories@,
            is_stable_key_order(offer_keys(cats, kept@), order@),
            forall|x: int| 0 <= x < kept@.len() ==> (#[trigger] kept@[x]).0 < cats.len() && kept@[x].1 < cats[kept@[x].0 as int].top_items@.len(),
            items@.len() == k,
            forall|x: int| 0 <= x < k ==> #[trigger] balance_item_matches(items@[x], cats, kept@[order@[x] as int]),
        decreases order@.len() - k,
    {
        let o = kept[order[k]];
        let c = &breakdown.categories[o.0];
        let e = &c.top_items[o.1];
        items.push(BalanceItem {
            path: e.path.clone(),
            name: e.name.clone(),
            size: e.size,
            category: c.id.clone(),
            action: owned(category_action(c.id.as_str())),
            priority: category_priority(c.id.as_str()),
        });
        k = k + 1;
    }
    let capped = if total < target_free { total } else { target_free };
    let current_source_used = breakdown.disk_used;
    BalanceSuggestion {
        source_disk: breakdown.disk_path.clone(),
        target_disk,
        current_source_used,
        current_target_used: target_used,
        projected_source_used: current_source_used.saturating_sub(capped),
        projected_target_used: target_used.saturating_add(capped),
        total_movable: capped,
        suggested_items: items,
    }
}

fn category_priority(id: &str) -> (r: u8)
    ensures
        r == offer_priority(id@),
{
    if str_eq(id, "app_cache") || str_eq(id, "temp") {
        1
    } else if str_eq(id, "dev_tools") || str_eq(id, "games") {
        2
    } else {
        3
    }
}

/// The action proposed for an item of a balance suggestion: items of the
/// temporary-files and application-cache categories are redirected, items
/// of every other category migrated.
pub proof fn law_balance_item_action(it: BalanceItem, cats: Seq<BreakdownCategory>, o: (usize, usize))
    requires
        balance_item_matches(it, cats, o),
    ensures
        it.category@ == "temp"@ ==> it.action@ == "redirect"@,
        it.category@ == "app_cache"@ ==> it.action@ == "redirect"@,
        !(it.category@ == "temp"@ || it.category@ == "app_cache"@) ==> it.action@ == "migrate"@,
{
}

/// The proposed action by category: `redirect` for `temp` and `app_cache`,
/// `migrate` for any other category.
pub proof fn law_offer_actions(id: Seq<char>)
    ensures
        offer_action("temp"@) == "redirect"@,
        offer_action("app_cache"@) == "redirect"@,
        !(id == "temp"@ || id == "app_cache"@) ==> offer_action(id) == "migrate"@,
{
}

fn category_action(id: &str) -> (r: &'static str)
    ensures
        r@ == offer_action(id@),
        id@ == "temp"@ || id@ == "app_cache"@ ==> r@ == "redirect"@,
        !(id@ == "temp"@ || id@ == "app_cache"@) ==> r@ == "migrate"@,
{
    if str_eq(id, "temp") || str_eq(id, "app_cache") {
        "redirect"
    } else {
        "migrate"
    }
}

} // verus!
