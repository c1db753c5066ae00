//! The built-in cleaning rules: where each kind of junk lives (resolved
//! against the environment's variables), how risky it is to remove, and the
//! merge of these rules with the rules loaded from configuration.
use vstd::prelude::*;
use crate::safety::{trim_whitespace, unicode_trim};
use crate::text::{
    ascii_upper, chars_of, owned, push_char, push_str, str_eq, to_ascii_uppercase, trim_end_seps, trim_end_seps_str,
    trim_start_seps, trim_start_seps_str,
};

verus! {

/// The kinds of junk.
#[derive(Debug, Clone, Copy, PartialEq, Eq, Hash, Structural)]
pub enum JunkCategory {
    SystemTemp,
    BrowserCache,
    WindowsUpdate,
    ThumbnailCache,
    RecycleBin,
    CrashDump,
    AppLogs,
    FontCache,
}

/// How risky it is to remove a kind of junk.
#[derive(Debug, Clone, Copy, PartialEq, Eq, Structural)]
pub enum JunkRiskLevel {
    Safe,
    Caution,
    Risky,
}

/// One cleaning rule.
pub struct JunkRule {
    pub id: String,
    pub category: JunkCategory,
    pub name: String,
    pub description: String,
    pub paths: Vec<String>,
    pub patterns: Vec<String>,
    pub risk_level: JunkRiskLevel,
    pub requires_admin: bool,
    pub default_selected: bool,
    pub clean_subdirs_only: bool,
    pub max_depth: Option<u32>,
    pub why_safe: Option<String>,
}

/// The texts of a list of strings.
pub open spec fn texts(s: Seq<String>) -> Seq<Seq<char>> {
    Seq::new(s.len(), |i: int| s[i]@)
}

// ---------------------------------------------------------------------------
// Environment variables
// ---------------------------------------------------------------------------

/// The value of the first variable of `env` whose name equals `name` up to
/// ASCII case (as Windows compares variable names).
pub open spec fn env_lookup(env: Seq<(String, String)>, name: Seq<char>) -> Option<Seq<char>>
    decreases env.len(),
{
    if env.len() == 0 {
        None
    } else if ascii_upper(env[0].0@) == ascii_upper(name) {
        Some(env[0].1@)
    } else {
        env_lookup(env.drop_first(), name)
    }
}

/// The value of a variable (see [`env_lookup`]).
pub fn env_var<'a>(env: &'a Vec<(String, String)>, name: &str) -> (r: Option<&'a str>)
    ensures
        r matches Some(v) ==> env_lookup(env@, name@) == Some(v@),
        r is None ==> env_lookup(env@, name@) is None,
{
    let key = to_ascii_uppercase(name);
    let mut i: usize = 0;
    assert(env@.skip(0) =~= env@);
    while i < env.len()
        invariant
            i <= env@.len(),
            key@ == ascii_upper(name@),
            env_lookup(env@, name@) == env_lookup(env@.skip(i as int), name@),
        decreases env@.len() - i,
    {
        let cand = to_ascii_uppercase(env[i].0.as_str());
        proof {
            assert(env@.skip(i as int)[0] == env@[i as int]);
            assert(env@.skip(i as int).drop_first() =~= env@.skip(i + 1));
        }
        if str_eq(cand.as_str(), key.as_str()) {
            return Some(env[i].1.as_str());
        }
        i = i + 1;
    }
    None
}

/// A path below the directory a variable names: the value trimmed of
/// whitespace and of trailing separators, then `\` and the suffix without
/// leading separators; none when the variable is unset or empty after
/// trimming.
pub open spec fn env_path_spec(env: Seq<(String, String)>, var: Seq<char>, suffix: Seq<char>) -> Option<Seq<char>> {
    match env_lookup(env, var) {
        None => None,
        Some(v) => {
            let base = trim_end_seps(unicode_trim(v));
            if base.len() == 0 {
                None
            } else if suffix.len() == 0 {
                Some(base)
            } else {
                Some(base.push('\\') + trim_start_seps(suffix))
            }
        },
    }
}

/// A path below the directory a variable names (see [`env_path_spec`]).
pub fn env_path(env: &Vec<(String, String)>, var: &str, suffix: &str) -> (r: Option<String>)
    ensures
        r matches Some(p) ==> env_path_spec(env@, var@, suffix@) == Some(p@),
        r is None ==> env_path_spec(env@, var@, suffix@) is None,
{
    let value = match env_var(env, var) {
        Some(v) => v,
        None => {
            return None;
        },
    };
    let trimmed = trim_whitespace(value);
    let base = trim_end_seps_str(trimmed.as_str());
    if chars_of(base.as_str()).len() == 0 {
        return None;
    }
    if chars_of(suffix).len() == 0 {
        return Some(base);
    }
    let mut out = base;
    push_char(&mut out, '\\');
    let tail = trim_start_seps_str(suffix);
    push_str(&mut out, tail.as_str());
    Some(out)
}

// ---------------------------------------------------------------------------
// The built-in table
// ---------------------------------------------------------------------------

/// The number of built-in rules.
pub const LEGACY_RULE_COUNT: usize = 127;

/// The built-in rule whose path is fixed: the recycle bin of drive C.
pub const RECYCLE_BIN_ROW: usize = 10;

/// The fixed path of the recycle bin rule.
pub const RECYCLE_BIN_PATH: &'static str = "C:\\$Recycle.Bin";

/// The id of built-in rule `i`.
pub open spec fn legacy_id(i: int) -> Seq<char> {
    if i == 0 {
        "user_temp"@
    } else if i == 1 {
        "local_appdata_temp"@
    } else if i == 2 {
        "windows_temp"@
    } else if i == 3 {
        "windows_prefetch"@
    } else if i == 4 {
        "windows_update_download"@
    } else if i == 5 {
        "windows_update_logs"@
    } else if i == 6 {
        "delivery_optimization_cache"@
    } else if i == 7 {
        "windows_setup_panther"@
    } else if i == 8 {
        "windows_setupapi_logs"@
    } else if i == 9 {
        "thumbnail_cache"@
    } else if i == 10 {
        "recycle_bin_c"@
    } else if i == 11 {
        "crash_dumps"@
    } else if i == 12 {
        "windows_error_reporting"@
    } else if i == 13 {
        "wer_report_archive"@
    } else if i == 14 {
        "wer_report_queue"@
    } else if i == 15 {
        "wer_temp"@
    } else if i == 16 {
        "windows_minidump"@
    } else if i == 17 {
        "live_kernel_reports"@
    } else if i == 18 {
        "windows_update_log_legacy"@
    } else if i == 19 {
        "cbs_logs"@
    } else if i == 20 {
        "dism_logs"@
    } else if i == 21 {
        "system_font_cache"@
    } else if i == 22 {
        "user_font_cache"@
    } else if i == 23 {
        "chrome_cache_all_profiles"@
    } else if i == 24 {
        "chrome_code_cache_all_profiles"@
    } else if i == 25 {
        "chrome_gpu_cache_all_profiles"@
    } else if i == 26 {
        "chrome_service_worker_cachestorage_all_profiles"@
    } else if i == 27 {
        "chrome_service_worker_scriptcache_all_profiles"@
    } else if i == 28 {
        "chrome_media_cache_all_profiles"@
    } else if i == 29 {
        "chrome_application_cache_all_profiles"@
    } else if i == 30 {
        "chrome_shader_cache"@
    } else if i == 31 {
        "chrome_crashpad_reports"@
    } else if i == 32 {
        "edge_cache_all_profiles"@
    } else if i == 33 {
        "edge_code_cache_all_profiles"@
    } else if i == 34 {
        "edge_gpu_cache_all_profiles"@
    } else if i == 35 {
        "edge_service_worker_cachestorage_all_profiles"@
    } else if i == 36 {
        "edge_media_cache_all_profiles"@
    } else if i == 37 {
        "edge_shader_cache"@
    } else if i == 38 {
        "edge_crashpad_reports"@
    } else if i == 39 {
        "firefox_startup_cache"@
    } else if i == 40 {
        "firefox_jumplist_cache"@
    } else if i == 41 {
        "firefox_offline_cache"@
    } else if i == 42 {
        "firefox_thumbnails"@
    } else if i == 43 {
        "firefox_crash_reports"@
    } else if i == 44 {
        "brave_cache_all_profiles"@
    } else if i == 45 {
        "brave_code_cache_all_profiles"@
    } else if i == 46 {
        "brave_gpu_cache_all_profiles"@
    } else if i == 47 {
        "opera_cache"@
    } else if i == 48 {
        "opera_code_cache"@
    } else if i == 49 {
        "opera_gpu_cache"@
    } else if i == 50 {
        "vivaldi_cache_all_profiles"@
    } else if i == 51 {
        "vivaldi_code_cache_all_profiles"@
    } else if i == 52 {
        "vivaldi_gpu_cache_all_profiles"@
    } else if i == 53 {
        "qihoo_360_cache"@
    } else if i == 54 {
        "tencent_qqbrowser_cache"@
    } else if i == 55 {
        "ie_inetcache"@
    } else if i == 56 {
        "ie_webcache"@
    } else if i == 57 {
        "ie_inetcookies"@
    } else if i == 58 {
        "teams_classic_cache"@
    } else if i == 59 {
        "teams_classic_code_cache"@
    } else if i == 60 {
        "teams_classic_gpu_cache"@
    } else if i == 61 {
        "teams_classic_blob_storage"@
    } else if i == 62 {
        "teams_classic_service_worker"@
    } else if i == 63 {
        "teams_new_local_cache"@
    } else if i == 64 {
        "slack_cache"@
    } else if i == 65 {
        "slack_code_cache"@
    } else if i == 66 {
        "slack_gpu_cache"@
    } else if i == 67 {
        "slack_service_worker"@
    } else if i == 68 {
        "discord_cache"@
    } else if i == 69 {
        "discord_code_cache"@
    } else if i == 70 {
        "discord_gpu_cache"@
    } else if i == 71 {
        "skype_cache"@
    } else if i == 72 {
        "skype_gpu_cache"@
    } else if i == 73 {
        "telegram_cache"@
    } else if i == 74 {
        "wechat_cache_only"@
    } else if i == 75 {
        "qq_websearch_cache"@
    } else if i == 76 {
        "dingtalk_cache"@
    } else if i == 77 {
        "vscode_cache"@
    } else if i == 78 {
        "vscode_cached_data"@
    } else if i == 79 {
        "vscode_cached_extensions"@
    } else if i == 80 {
        "vscode_cached_extension_vsixs"@
    } else if i == 81 {
        "vscode_gpu_cache"@
    } else if i == 82 {
        "vscode_service_worker"@
    } else if i == 83 {
        "vscode_logs"@
    } else if i == 84 {
        "vscode_crashpad"@
    } else if i == 85 {
        "jetbrains_user_caches"@
    } else if i == 86 {
        "jetbrains_user_log"@
    } else if i == 87 {
        "jetbrains_user_system_caches"@
    } else if i == 88 {
        "jetbrains_user_indexes"@
    } else if i == 89 {
        "visualstudio_componentmodelcache"@
    } else if i == 90 {
        "visualstudio_temp"@
    } else if i == 91 {
        "visualstudio_extensions_cache"@
    } else if i == 92 {
        "npm_cache"@
    } else if i == 93 {
        "pnpm_cache"@
    } else if i == 94 {
        "yarn_cache"@
    } else if i == 95 {
        "pip_cache"@
    } else if i == 96 {
        "conda_pkgs_cache"@
    } else if i == 97 {
        "cargo_registry_cache"@
    } else if i == 98 {
        "gradle_daemon_logs"@
    } else if i == 99 {
        "nuget_v3_cache"@
    } else if i == 100 {
        "nuget_http_cache"@
    } else if i == 101 {
        "office_document_cache"@
    } else if i == 102 {
        "onedrive_setup_logs"@
    } else if i == 103 {
        "adobe_common_media_cache_files"@
    } else if i == 104 {
        "adobe_common_media_cache"@
    } else if i == 105 {
        "adobe_common_peak_files"@
    } else if i == 106 {
        "adobe_bridge_cache"@
    } else if i == 107 {
        "adobe_camera_raw_cache"@
    } else if i == 108 {
        "d3d_shader_cache"@
    } else if i == 109 {
        "nvidia_dx_cache"@
    } else if i == 110 {
        "nvidia_gl_cache"@
    } else if i == 111 {
        "nvidia_compute_cache"@
    } else if i == 112 {
        "amd_dx_cache"@
    } else if i == 113 {
        "amd_gl_cache"@
    } else if i == 114 {
        "steam_html_cache"@
    } else if i == 115 {
        "epic_webcache"@
    } else if i == 116 {
        "epic_logs"@
    } else if i == 117 {
        "battlenet_cache"@
    } else if i == 118 {
        "battlenet_logs"@
    } else if i == 119 {
        "riot_logs"@
    } else if i == 120 {
        "ea_app_cache"@
    } else if i == 121 {
        "ea_app_logs"@
    } else if i == 122 {
        "zoom_cache"@
    } else if i == 123 {
        "zoom_logs"@
    } else if i == 124 {
        "spotify_storage"@
    } else if i == 125 {
        "spotify_browser_cache"@
    } else if i == 126 {
        "spotify_gpu_cache"@
    } else {
        Seq::empty()
    }
}

/// The variable naming the directory of built-in rule `i`.
pub open spec fn legacy_var(i: int) -> Seq<char> {
    if i == 0 {
        "TEMP"@
    } else if i == 1 {
        "LOCALAPPDATA"@
    } else if i == 2 {
        "WINDIR"@
    } else if i == 3 {
        "WINDIR"@
    } else if i == 4 {
        "WINDIR"@
    } else if i == 5 {
        "WINDIR"@
    } else if i == 6 {
        "WINDIR"@
    } else if i == 7 {
        "WINDIR"@
    } else if i == 8 {
        "WINDIR"@
    } else if i == 9 {
        "LOCALAPPDATA"@
    } else if i == 11 {
        "LOCALAPPDATA"@
    } else if i == 12 {
        "LOCALAPPDATA"@
    } else if i == 13 {
        "PROGRAMDATA"@
    } else if i == 14 {
        "PROGRAMDATA"@
    } else if i == 15 {
        "PROGRAMDATA"@
    } else if i == 16 {
        "WINDIR"@
    } else if i == 17 {
        "WINDIR"@
    } else if i == 18 {
        "LOCALAPPDATA"@
    } else if i == 19 {
        "WINDIR"@
    } else if i == 20 {
        "WINDIR"@
    } else if i == 21 {
        "WINDIR"@
    } else if i == 22 {
        "LOCALAPPDATA"@
    } else if i == 23 {
        "LOCALAPPDATA"@
    } else if i == 24 {
        "LOCALAPPDATA"@
    } else if i == 25 {
        "LOCALAPPDATA"@
    } else if i == 26 {
        "LOCALAPPDATA"@
    } else if i == 27 {
        "LOCALAPPDATA"@
    } else if i == 28 {
        "LOCALAPPDATA"@
    } else if i == 29 {
        "LOCALAPPDATA"@
    } else if i == 30 {
        "LOCALAPPDATA"@
    } else if i == 31 {
        "LOCALAPPDATA"@
    } else if i == 32 {
        "LOCALAPPDATA"@
    } else if i == 33 {
        "LOCALAPPDATA"@
    } else if i == 34 {
        "LOCALAPPDATA"@
    } else if i == 35 {
        "LOCALAPPDATA"@
    } else if i == 36 {
        "LOCALAPPDATA"@
    } else if i == 37 {
        "LOCALAPPDATA"@
    } else if i == 38 {
        "LOCALAPPDATA"@
    } else if i == 39 {
        "LOCALAPPDATA"@
    } else if i == 40 {
        "LOCALAPPDATA"@
    } else if i == 41 {
        "LOCALAPPDATA"@
    } else if i == 42 {
        "LOCALAPPDATA"@
    } else if i == 43 {
        "APPDATA"@
    } else if i == 44 {
        "LOCALAPPDATA"@
    } else if i == 45 {
        "LOCALAPPDATA"@
    } else if i == 46 {
        "LOCALAPPDATA"@
    } else if i == 47 {
        "APPDATA"@
    } else if i == 48 {
        "APPDATA"@
    } else if i == 49 {
        "APPDATA"@
    } else if i == 50 {
        "LOCALAPPDATA"@
    } else if i == 51 {
        "LOCALAPPDATA"@
    } else if i == 52 {
        "LOCALAPPDATA"@
    } else if i == 53 {
        "APPDATA"@
    } else if i == 54 {
        "APPDATA"@
    } else if i == 55 {
        "LOCALAPPDATA"@
    } else if i == 56 {
        "LOCALAPPDATA"@
    } else if i == 57 {
        "LOCALAPPDATA"@
    } else if i == 58 {
        "APPDATA"@
    } else if i == 59 {
        "APPDATA"@
    } else if i == 60 {
        "APPDATA"@
    } else if i == 61 {
        "APPDATA"@
    } else if i == 62 {
        "APPDATA"@
    } else if i == 63 {
        "LOCALAPPDATA"@
    } else if i == 64 {
        "APPDATA"@
    } else if i == 65 {
        "APPDATA"@
    } else if i == 66 {
        "APPDATA"@
    } else if i == 67 {
        "APPDATA"@
    } else if i == 68 {
        "APPDATA"@
    } else if i == 69 {
        "APPDATA"@
    } else if i == 70 {
        "APPDATA"@
    } else if i == 71 {
        "APPDATA"@
    } else if i == 72 {
        "APPDATA"@
    } else if i == 73 {
        "APPDATA"@
    } else if i == 74 {
        "USERPROFILE"@
    } else if i == 75 {
        "APPDATA"@
    } else if i == 76 {
        "APPDATA"@
    } else if i == 77 {
        "APPDATA"@
    } else if i == 78 {
        "APPDATA"@
    } else if i == 79 {
        "APPDATA"@
    } else if i == 80 {
        "APPDATA"@
    } else if i == 81 {
        "APPDATA"@
    } else if i == 82 {
        "APPDATA"@
    } else if i == 83 {
        "APPDATA"@
    } else if i == 84 {
        "APPDATA"@
    } else if i == 85 {
        "LOCALAPPDATA"@
    } else if i == 86 {
        "LOCALAPPDATA"@
    } else if i == 87 {
        "LOCALAPPDATA"@
    } else if i == 88 {
        "LOCALAPPDATA"@
    } else if i == 89 {
        "LOCALAPPDATA"@
    } else if i == 90 {
        "LOCALAPPDATA"@
    } else if i == 91 {
        "LOCALAPPDATA"@
    } else if i == 92 {
        "APPDATA"@
    } else if i == 93 {
        "LOCALAPPDATA"@
    } else if i == 94 {
        "LOCALAPPDATA"@
    } else if i == 95 {
        "LOCALAPPDATA"@
    } else if i == 96 {
        "USERPROFILE"@
    } else if i == 97 {
        "USERPROFILE"@
    } else if i == 98 {
        "USERPROFILE"@
    } else if i == 99 {
        "LOCALAPPDATA"@
    } else if i == 100 {
        "LOCALAPPDATA"@
    } else if i == 101 {
        "LOCALAPPDATA"@
    } else if i == 102 {
        "LOCALAPPDATA"@
    } else if i == 103 {
        "APPDATA"@
    } else if i == 104 {
        "APPDATA"@
    } else if i == 105 {
        "APPDATA"@
    } else if i == 106 {
        "APPDATA"@
    } else if i == 107 {
        "LOCALAPPDATA"@
    } else if i == 108 {
        "LOCALAPPDATA"@
    } else if i == 109 {
        "LOCALAPPDATA"@
    } else if i == 110 {
        "LOCALAPPDATA"@
    } else if i == 111 {
        "LOCALAPPDATA"@
    } else if i == 112 {
        "LOCALAPPDATA"@
    } else if i == 113 {
        "LOCALAPPDATA"@
    } else if i == 114 {
        "LOCALAPPDATA"@
    } else if i == 115 {
        "LOCALAPPDATA"@
    } else if i == 116 {
        "LOCALAPPDATA"@
    } else if i == 117 {
        "APPDATA"@
    } else if i == 118 {
        "PROGRAMDATA"@
    } else if i == 119 {
        "LOCALAPPDATA"@
    } else if i == 120 {
        "LOCALAPPDATA"@
    } else if i == 121 {
        "LOCALAPPDATA"@
    } else if i == 122 {
        "APPDATA"@
    } else if i == 123 {
        "APPDATA"@
    } else if i == 124 {
        "LOCALAPPDATA"@
    } else if i == 125 {
        "LOCALAPPDATA"@
    } else if i == 126 {
        "LOCALAPPDATA"@
    } else {
        Seq::empty()
    }
}

/// The path of built-in rule `i` below its directory.
pub open spec fn legacy_suffix(i: int) -> Seq<char> {
    if i == 0 {
        ""@
    } else if i == 1 {
        "Temp"@
    } else if i == 2 {
        "Temp"@
    } else if i == 3 {
        "Prefetch"@
    } else if i == 4 {
        "SoftwareDistribution\\Download"@
    } else if i == 5 {
        "Logs\\WindowsUpdate"@
    } else if i == 6 {
        "SoftwareDistribution\\DeliveryOptimization\\Cache"@
    } else if i == 7 {
        "Panther"@
    } else if i == 8 {
        "inf"@
    } else if i == 9 {
        "Microsoft\\Windows\\Explorer"@
    } else if i == 11 {
        "CrashDumps"@
    } else if i == 12 {
        "Microsoft\\Windows\\WER"@
    } else if i == 13 {
        "Microsoft\\Windows\\WER\\ReportArchive"@
    } else if i == 14 {
        "Microsoft\\Windows\\WER\\ReportQueue"@
    } else if i == 15 {
        "Microsoft\\Windows\\WER\\Temp"@
    } else if i == 16 {
        "Minidump"@
    } else if i == 17 {
        "LiveKernelReports"@
    } else if i == 18 {
        "Microsoft\\Windows\\WindowsUpdate.log"@
    } else if i == 19 {
        "Logs\\CBS"@
    } else if i == 20 {
        "Logs\\DISM"@
    } else if i == 21 {
        "ServiceProfiles\\LocalService\\AppData\\Local\\FontCache"@
    } else if i == 22 {
        "FontCache"@
    } else if i == 23 {
        "Google\\Chrome\\User Data\\*\\Cache"@
    } else if i == 24 {
        "Google\\Chrome\\User Data\\*\\Code Cache"@
    } else if i == 25 {
        "Google\\Chrome\\User Data\\*\\GPUCache"@
    } else if i == 26 {
        "Google\\Chrome\\User Data\\*\\Service Worker\\CacheStorage"@
    } else if i == 27 {
        "Google\\Chrome\\User Data\\*\\Service Worker\\ScriptCache"@
    } else if i == 28 {
        "Google\\Chrome\\User Data\\*\\Media Cache"@
    } else if i == 29 {
        "Google\\Chrome\\User Data\\*\\Application Cache"@
    } else if i == 30 {
        "Google\\Chrome\\User Data\\ShaderCache"@
    } else if i == 31 {
        "Google\\Chrome\\User Data\\Crashpad\\reports"@
    } else if i == 32 {
        "Microsoft\\Edge\\User Data\\*\\Cache"@
    } else if i == 33 {
        "Microsoft\\Edge\\User Data\\*\\Code Cache"@
    } else if i == 34 {
        "Microsoft\\Edge\\User Data\\*\\GPUCache"@
    } else if i == 35 {
        "Microsoft\\Edge\\User Data\\*\\Service Worker\\CacheStorage"@
    } else if i == 36 {
        "Microsoft\\Edge\\User Data\\*\\Media Cache"@
    } else if i == 37 {
        "Microsoft\\Edge\\User Data\\ShaderCache"@
    } else if i == 38 {
        "Microsoft\\Edge\\User Data\\Crashpad\\reports"@
    } else if i == 39 {
        "Mozilla\\Firefox\\Profiles\\*\\startupCache"@
    } else if i == 40 {
        "Mozilla\\Firefox\\Profiles\\*\\jumpListCache"@
    } else if i == 41 {
        "Mozilla\\Firefox\\Profiles\\*\\OfflineCache"@
    } else if i == 42 {
        "Mozilla\\Firefox\\Profiles\\*\\thumbnails"@
    } else if i == 43 {
        "Mozilla\\Firefox\\Crash Reports"@
    } else if i == 44 {
        "BraveSoftware\\Brave-Browser\\User Data\\*\\Cache"@
    } else if i == 45 {
        "BraveSoftware\\Brave-Browser\\User Data\\*\\Code Cache"@
    } else if i == 46 {
        "BraveSoftware\\Brave-Browser\\User Data\\*\\GPUCache"@
    } else if i == 47 {
        "Opera Software\\Opera Stable\\Cache"@
    } else if i == 48 {
        "Opera Software\\Opera Stable\\Code Cache"@
    } else if i == 49 {
        "Opera Software\\Opera Stable\\GPUCache"@
    } else if i == 50 {
        "Vivaldi\\User Data\\*\\Cache"@
    } else if i == 51 {
        "Vivaldi\\User Data\\*\\Code Cache"@
    } else if i == 52 {
        "Vivaldi\\User Data\\*\\GPUCache"@
    } else if i == 53 {
        "360se6\\User Data\\Default\\Cache"@
    } else if i == 54 {
        "Tencent\\QQBrowser\\User Data\\Default\\Cache"@
    } else if i == 55 {
        "Microsoft\\Windows\\INetCache"@
    } else if i == 56 {
        "Microsoft\\Windows\\WebCache"@
    } else if i == 57 {
        "Microsoft\\Windows\\INetCookies"@
    } else if i == 58 {
        "Microsoft\\Teams\\Cache"@
    } else if i == 59 {
        "Microsoft\\Teams\\Code Cache"@
    } else if i == 60 {
        "Microsoft\\Teams\\GPUCache"@
    } else if i == 61 {
        "Microsoft\\Teams\\blob_storage"@
    } else if i == 62 {
        "Microsoft\\Teams\\Service Worker\\CacheStorage"@
    } else if i == 63 {
        "Packages\\MSTeams_8wekyb3d8bbwe\\LocalCache"@
    } else if i == 64 {
        "Slack\\Cache"@
    } else if i == 65 {
        "Slack\\Code Cache"@
    } else if i == 66 {
        "Slack\\GPUCache"@
    } else if i == 67 {
        "Slack\\Service Worker\\CacheStorage"@
    } else if i == 68 {
        "discord\\Cache"@
    } else if i == 69 {
        "discord\\Code Cache"@
    } else if i == 70 {
        "discord\\GPUCache"@
    } else if i == 71 {
        "Microsoft\\Skype for Desktop\\Cache"@
    } else if i == 72 {
        "Microsoft\\Skype for Desktop\\GPUCache"@
    } else if i == 73 {
        "Telegram Desktop\\tdata\\user_data\\cache"@
    } else if i == 74 {
        "Documents\\WeChat Files\\All Users\\config\\cache"@
    } else if i == 75 {
        "Tencent\\QQ\\WebSearchCache"@
    } else if i == 76 {
        "DingTalk\\rolling_logs"@
    } else if i == 77 {
        "Code\\Cache"@
    } else if i == 78 {
        "Code\\CachedData"@
    } else if i == 79 {
        "Code\\CachedExtensions"@
    } else if i == 80 {
        "Code\\CachedExtensionVSIXs"@
    } else if i == 81 {
        "Code\\GPUCache"@
    } else if i == 82 {
        "Code\\Service Worker\\CacheStorage"@
    } else if i == 83 {
        "Code\\logs"@
    } else if i == 84 {
        "Code\\Crashpad"@
    } else if i == 85 {
        "JetBrains\\*\\caches"@
    } else if i == 86 {
        "JetBrains\\*\\log"@
    } else if i == 87 {
        "JetBrains\\*\\system\\caches"@
    } else if i == 88 {
        "JetBrains\\*\\index"@
    } else if i == 89 {
        "Microsoft\\VisualStudio\\*\\ComponentModelCache"@
    } else if i == 90 {
        "Microsoft\\VisualStudio\\*\\Temp"@
    } else if i == 91 {
        "Microsoft\\VisualStudio\\*\\Extensions\\Logs"@
    } else if i == 92 {
        "npm-cache"@
    } else if i == 93 {
        "pnpm-cache"@
    } else if i == 94 {
        "Yarn\\Cache"@
    } else if i == 95 {
        "pip\\Cache"@
    } else if i == 96 {
        ".conda\\pkgs"@
    } else if i == 97 {
        ".cargo\\registry\\cache"@
    } else if i == 98 {
        ".gradle\\daemon"@
    } else if i == 99 {
        "NuGet\\v3-cache"@
    } else if i == 100 {
        "NuGet\\Cache"@
    } else if i == 101 {
        "Microsoft\\Office\\*\\OfficeFileCache"@
    } else if i == 102 {
        "Microsoft\\OneDrive\\setup\\logs"@
    } else if i == 103 {
        "Adobe\\Common\\Media Cache Files"@
    } else if i == 104 {
        "Adobe\\Common\\Media Cache"@
    } else if i == 105 {
        "Adobe\\Common\\Peak Files"@
    } else if i == 106 {
        "Adobe\\Bridge*\\Cache"@
    } else if i == 107 {
        "Adobe\\Camera Raw\\Cache"@
    } else if i == 108 {
        "D3DSCache"@
    } else if i == 109 {
        "NVIDIA\\DXCache"@
    } else if i == 110 {
        "NVIDIA\\GLCache"@
    } else if i == 111 {
        "NVIDIA\\ComputeCache"@
    } else if i == 112 {
        "AMD\\DxCache"@
    } else if i == 113 {
        "AMD\\GLCache"@
    } else if i == 114 {
        "Steam\\htmlcache"@
    } else if i == 115 {
        "EpicGamesLauncher\\Saved\\webcache"@
    } else if i == 116 {
        "EpicGamesLauncher\\Saved\\Logs"@
    } else if i == 117 {
        "Battle.net\\Cache"@
    } else if i == 118 {
        "Battle.net\\Logs"@
    } else if i == 119 {
        "Riot Games\\Riot Client\\Logs"@
    } else if i == 120 {
        "Electronic Arts\\EA Desktop\\Cache"@
    } else if i == 121 {
        "Electronic Arts\\EA Desktop\\Logs"@
    } else if i == 122 {
        "Zoom\\data\\cache"@
    } else if i == 123 {
        "Zoom\\logs"@
    } else if i == 124 {
        "Spotify\\Storage"@
    } else if i == 125 {
        "Spotify\\Browser"@
    } else if i == 126 {
        "Spotify\\GPUCache"@
    } else {
        Seq::empty()
    }
}

/// The category of built-in rule `i`.
pub open spec fn legacy_category(i: int) -> JunkCategory {
    if i == 8 || (18 <= i && i <= 20) || i == 76 || i == 83 || i == 86 || i == 91 || i == 98 || i == 102 || i == 116 || (118 <= i && i <= 119) || i == 121 || i == 123 {
        JunkCategory::AppLogs
    } else if (23 <= i && i <= 30) || (32 <= i && i <= 37) || (39 <= i && i <= 42) || (44 <= i && i <= 75) || (77 <= i && i <= 82) || (92 <= i && i <= 97) || (99 <= i && i <= 101) || (114 <= i && i <= 115) || i == 117 || i == 120 || i == 122 || (124 <= i && i <= 126) {
        JunkCategory::BrowserCache
    } else if (11 <= i && i <= 17) || i == 31 || i == 38 || i == 43 || i == 84 {
        JunkCategory::CrashDump
    } else if (21 <= i && i <= 22) {
        JunkCategory::FontCache
    } else if i == 10 {
        JunkCategory::RecycleBin
    } else if (0 <= i && i <= 3) || i == 90 || (103 <= i && i <= 105) {
        JunkCategory::SystemTemp
    } else if i == 9 || i == 85 || (87 <= i && i <= 89) || (106 <= i && i <= 113) {
        JunkCategory::ThumbnailCache
    } else {
        JunkCategory::WindowsUpdate
    }
}

/// The risk of built-in rule `i`.
pub open spec fn legacy_risk(i: int) -> JunkRiskLevel {
    if (0 <= i && i <= 7) || i == 10 || i == 17 || (56 <= i && i <= 57) || i == 76 || i == 83 || i == 86 || (90 <= i && i <= 91) || i == 98 || (101 <= i && i <= 102) || i == 116 || (118 <= i && i <= 119) || i == 121 || (123 <= i && i <= 124) {
        JunkRiskLevel::Caution
    } else if i == 8 || (18 <= i && i <= 20) || (92 <= i && i <= 97) || (99 <= i && i <= 100) {
        JunkRiskLevel::Risky
    } else {
        JunkRiskLevel::Safe
    }
}

/// Whether built-in rule `i` needs administrator rights.
pub open spec fn legacy_needs_admin(i: int) -> bool {
    (4 <= i && i <= 8) || (13 <= i && i <= 17) || (19 <= i && i <= 21)
}

/// Whether built-in rule `i` is selected by default.
pub open spec fn legacy_selected(i: int) -> bool {
    (0 <= i && i <= 6) || i == 9 || (11 <= i && i <= 17) || (22 <= i && i <= 55) || (58 <= i && i <= 75) || (77 <= i && i <= 82) || (84 <= i && i <= 85) || (87 <= i && i <= 90) || (103 <= i && i <= 115) || i == 117 || i == 120 || i == 122 || (125 <= i && i <= 126)
}

/// Whether built-in rule `i` cleans only what its directory holds.
pub open spec fn legacy_subdirs_only(i: int) -> bool {
    (0 <= i && i <= 8) || (10 <= i && i <= 17) || (19 <= i && i <= 22) || i == 43 || (55 <= i && i <= 57) || i == 63 || (83 <= i && i <= 84) || i == 86 || (90 <= i && i <= 91) || i == 98 || i == 102 || i == 116 || (118 <= i && i <= 119) || i == 121 || i == 123
}

/// The data of one built-in rule.
pub struct LegacyRow {
    pub id: &'static str,
    pub category: JunkCategory,
    pub name: &'static str,
    pub description: &'static str,
    pub var: &'static str,
    pub suffix: &'static str,
    pub risk_level: JunkRiskLevel,
    pub requires_admin: bool,
    pub default_selected: bool,
    pub clean_subdirs_only: bool,
    pub why_safe: &'static str,
}

/// Built-in rule `i`.
pub fn legacy_row(i: usize) -> (r: LegacyRow)
    requires
        i < LEGACY_RULE_COUNT,
    ensures
        r.id@ == legacy_id(i as int),
        i != RECYCLE_BIN_ROW ==> r.var@ == legacy_var(i as int) && r.suffix@ == legacy_suffix(i as int),
        r.category == legacy_category(i as int),
        r.risk_level == legacy_risk(i as int),
        r.requires_admin == legacy_needs_admin(i as int),
        r.default_selected == legacy_selected(i as int),
        r.clean_subdirs_only == legacy_subdirs_only(i as int),
{
    match i {
        0 => LegacyRow {
            id: "user_temp",
            category: JunkCategory::SystemTemp,
            name: "用户临时文件夹",
            description: "当前用户 %TEMP% 目录下的临时文件，应用退出后大多不再使用",
            var: "TEMP",
            suffix: "",
            risk_level: JunkRiskLevel::Caution,
            requires_admin: false,
            default_selected: true,
            clean_subdirs_only: true,
            why_safe: "你的应用临时草稿区——安装包解压、压缩软件预览、浏览器下载临时块都堆在这里。Windows 不会主动告诉任何软件 \"这文件还在\"，软件用完一次就忘了它。已被某个进程打开的文件会被自动跳过，**不会动到正在用的临时数据**。",
        },
        1 => LegacyRow {
            id: "local_appdata_temp",
            category: JunkCategory::SystemTemp,
            name: "本地应用临时文件夹",
            description: "%LOCALAPPDATA%\\Temp 中的临时文件，安装包/解压残留常驻于此",
            var: "LOCALAPPDATA",
            suffix: "Temp",
            risk_level: JunkRiskLevel::Caution,
            requires_admin: false,
            default_selected: true,
            clean_subdirs_only: true,
            why_safe: "和上面一个道理，是软件以 LocalAppData 形态存的临时区。Visual Studio、Office、各类下载器在这里堆了大量解压残骸。**不影响任何软件的设置、登录态、用户数据**，正在被进程打开的文件会被跳过。",
        },
        2 => LegacyRow {
            id: "windows_temp",
            category: JunkCategory::SystemTemp,
            name: "Windows 临时文件夹",
            description: "系统 %WINDIR%\\Temp 目录，安装/更新过程中产生的中转文件",
            var: "WINDIR",
            suffix: "Temp",
            risk_level: JunkRiskLevel::Caution,
            requires_admin: false,
            default_selected: true,
            clean_subdirs_only: true,
            why_safe: "系统级临时目录，主要是安装包、Windows 更新、系统服务的中转文件。一次会话结束就没用了，**不影响已安装软件**。需要管理员权限才能清理，正在使用的文件会被自动跳过。",
        },
        3 => LegacyRow {
            id: "windows_prefetch",
            category: JunkCategory::SystemTemp,
            name: "Windows Prefetch",
            description: "预读取缓存（*.pf），删除后下一次启动会自动重建，仅短暂影响启动速度",
            var: "WINDIR",
            suffix: "Prefetch",
            risk_level: JunkRiskLevel::Caution,
            requires_admin: false,
            default_selected: true,
            clean_subdirs_only: true,
            why_safe: "Windows 记录\"哪些程序刚启动过\"的预读取索引（*.pf）。删除后下一次启动这些程序时，Windows 会重新生成对应索引，仅那一次会慢 0.5-1 秒。**不会影响任何程序的功能或数据**。",
        },
        4 => LegacyRow {
            id: "windows_update_download",
            category: JunkCategory::WindowsUpdate,
            name: "Windows 更新下载缓存",
            description: "%WINDIR%\\SoftwareDistribution\\Download，已安装的更新包残留，可释放数 GB",
            var: "WINDIR",
            suffix: "SoftwareDistribution\\Download",
            risk_level: JunkRiskLevel::Caution,
            requires_admin: true,
            default_selected: true,
            clean_subdirs_only: true,
            why_safe: "Windows Update 下载完、已经装好的更新包二进制。装完之后就再也用不到了，过 10 天 Windows 自己也会清。**不影响系统补丁状态**——已经装上的补丁不会因为这个被卸载。",
        },
        5 => LegacyRow {
            id: "windows_update_logs",
            category: JunkCategory::WindowsUpdate,
            name: "Windows 更新日志",
            description: "%WINDIR%\\Logs\\WindowsUpdate，仅排错使用，可安全删除",
            var: "WINDIR",
            suffix: "Logs\\WindowsUpdate",
            risk_level: JunkRiskLevel::Caution,
            requires_admin: true,
            default_selected: true,
            clean_subdirs_only: true,
            why_safe: "Windows Update 给自己排错用的日志。**不参与系统打补丁、不参与回滚**，删了不影响任何系统功能。仅当你在和微软支持工程师一起诊断更新失败时才有用。",
        },
        6 => LegacyRow {
            id: "delivery_optimization_cache",
            category: JunkCategory::WindowsUpdate,
            name: "Windows 传递优化缓存",
            description: "%WINDIR%\\SoftwareDistribution\\DeliveryOptimization\\Cache，P2P 更新分发缓存，企业网常达数 GB",
            var: "WINDIR",
            suffix: "SoftwareDistribution\\DeliveryOptimization\\Cache",
            risk_level: JunkRiskLevel::Caution,
            requires_admin: true,
            default_selected: true,
            clean_subdirs_only: true,
            why_safe: "公司/校园网常见的 P2P 更新分发缓存——Windows 自动从局域网其他机器拉更新包到这里中转。常达数 GB。**不影响更新成功率**，只影响你下次成为\"分发源\"的速度。",
        },
        7 => LegacyRow {
            id: "windows_setup_panther",
            category: JunkCategory::WindowsUpdate,
            name: "Windows 安装/升级日志（Panther）",
            description: "%WINDIR%\\Panther，安装与功能更新的部署日志，体积可达数百 MB",
            var: "WINDIR",
            suffix: "Panther",
            risk_level: JunkRiskLevel::Caution,
            requires_admin: true,
            default_selected: false,
            clean_subdirs_only: true,
            why_safe: "Windows 大版本升级或功能更新的部署日志。升级完成后 10 天内 Windows 还可能回滚用到这些日志，**所以默认不勾**。如果你升级很久了并且没遇到问题，可以勾上清理。",
        },
        8 => LegacyRow {
            id: "windows_setupapi_logs",
            category: JunkCategory::AppLogs,
            name: "驱动安装日志（setupapi）",
            description: "%WINDIR%\\inf\\setupapi.*.log，驱动与 INF 安装日志，体积可达数百 MB，仅排障保留",
            var: "WINDIR",
            suffix: "inf",
            risk_level: JunkRiskLevel::Risky,
            requires_admin: true,
            default_selected: false,
            clean_subdirs_only: true,
            why_safe: "驱动/INF 安装时写的日志。日常用不到，但如果你正在排查\"某个硬件不工作\"\"设备管理器有黄叹号\"，删了就**没法回看安装过程**。默认不勾选。",
        },
        9 => LegacyRow {
            id: "thumbnail_cache",
            category: JunkCategory::ThumbnailCache,
            name: "资源管理器缩略图缓存",
            description: "thumbcache_*.db / iconcache_*.db，删除后首次浏览文件夹会重建",
            var: "LOCALAPPDATA",
            suffix: "Microsoft\\Windows\\Explorer",
            risk_level: JunkRiskLevel::Safe,
            requires_admin: false,
            default_selected: true,
            clean_subdirs_only: false,
            why_safe: "资源管理器为了让你打开文件夹时图标加载更快而存的缩略图索引（thumbcache_*.db / iconcache_*.db）。删除后第一次浏览每个文件夹会重新生成，**只多 1-2 秒**。常用于解决\"缩略图显示错乱\"的问题。",
        },
        10 => LegacyRow {
            id: "recycle_bin_c",
            category: JunkCategory::RecycleBin,
            name: "回收站 (C:)",
            description: "C: 盘回收站，删除后无法从回收站还原，请确认其中无需要的文件",
            var: "",
            suffix: "",
            risk_level: JunkRiskLevel::Caution,
            requires_admin: false,
            default_selected: false,
            clean_subdirs_only: true,
            why_safe: "C 盘回收站。清空之后里面的文件**无法从回收站还原**，确认其中没有需要的文件再勾选。默认不勾。",
        },
        11 => LegacyRow {
            id: "crash_dumps",
            category: JunkCategory::CrashDump,
            name: "应用崩溃转储",
            description: "%LOCALAPPDATA%\\CrashDumps，应用崩溃时生成的内存快照，体积常达数百 MB",
            var: "LOCALAPPDATA",
            suffix: "CrashDumps",
            risk_level: JunkRiskLevel::Safe,
            requires_admin: false,
            default_selected: true,
            clean_subdirs_only: true,
            why_safe: "应用崩溃瞬间 Windows 抓取的内存快照（.dmp）。仅在你需要把这个崩溃报告给开发者时才有用。**这个崩溃已经过去了，留着也没用**。",
        },
        12 => LegacyRow {
            id: "windows_error_reporting",
            category: JunkCategory::CrashDump,
            name: "Windows 错误报告 (用户级 WER)",
            description: "%LOCALAPPDATA%\\Microsoft\\Windows\\WER，已上报或排队中的用户级错误报告",
            var: "LOCALAPPDATA",
            suffix: "Microsoft\\Windows\\WER",
            risk_level: JunkRiskLevel::Safe,
            requires_admin: false,
            default_selected: true,
            clean_subdirs_only: true,
            why_safe: "Windows 错误报告（WER）攒下来等着发给微软的数据。删了不影响系统、也不影响已安装软件，仅影响\"如果以后某次 BSOD 你想给微软看历史报告\"这一极少数场景。",
        },
        13 => LegacyRow {
            id: "wer_report_archive",
            category: JunkCategory::CrashDump,
            name: "Windows 错误报告归档（系统级）",
            description: "%PROGRAMDATA%\\Microsoft\\Windows\\WER\\ReportArchive，已归档的系统级错误报告",
            var: "PROGRAMDATA",
            suffix: "Microsoft\\Windows\\WER\\ReportArchive",
            risk_level: JunkRiskLevel::Safe,
            requires_admin: true,
            default_selected: true,
            clean_subdirs_only: true,
            why_safe: "WER 错误报告归档区（系统级）——已经上报过给微软的副本。微软那边早收到了，本地这一份纯粹是历史存档。删了不影响任何东西。",
        },
        14 => LegacyRow {
            id: "wer_report_queue",
            category: JunkCategory::CrashDump,
            name: "Windows 错误报告队列（系统级）",
            description: "%PROGRAMDATA%\\Microsoft\\Windows\\WER\\ReportQueue，等待上报的系统级错误报告",
            var: "PROGRAMDATA",
            suffix: "Microsoft\\Windows\\WER\\ReportQueue",
            risk_level: JunkRiskLevel::Safe,
            requires_admin: true,
            default_selected: true,
            clean_subdirs_only: true,
            why_safe: "WER 错误报告排队上报区（系统级）。即使删了排队中的内容，下次出现错误时 Windows 会重新生成新的报告。**不影响系统功能**。",
        },
        15 => LegacyRow {
            id: "wer_temp",
            category: JunkCategory::CrashDump,
            name: "Windows 错误报告临时数据",
            description: "%PROGRAMDATA%\\Microsoft\\Windows\\WER\\Temp，错误报告生成过程中的临时文件",
            var: "PROGRAMDATA",
            suffix: "Microsoft\\Windows\\WER\\Temp",
            risk_level: JunkRiskLevel::Safe,
            requires_admin: true,
            default_selected: true,
            clean_subdirs_only: true,
            why_safe: "WER 在生成报告时的临时中转文件。报告生成完就用不上了。删了不影响任何东西。",
        },
        16 => LegacyRow {
            id: "windows_minidump",
            category: JunkCategory::CrashDump,
            name: "Windows 小型转储",
            description: "%WINDIR%\\Minidump，蓝屏时生成的小型内存转储，仅排障保留",
            var: "WINDIR",
            suffix: "Minidump",
            risk_level: JunkRiskLevel::Safe,
            requires_admin: true,
            default_selected: true,
            clean_subdirs_only: true,
            why_safe: "蓝屏时 Windows 抓取的小型内核内存转储（*.dmp）。给微软或硬件厂商排查蓝屏原因用的。**蓝屏已经发生过了，留着这份历史样本对你没用**。如果你**正在**排查蓝屏问题，请先取消勾选。",
        },
        17 => LegacyRow {
            id: "live_kernel_reports",
            category: JunkCategory::CrashDump,
            name: "Live Kernel 报告",
            description: "%WINDIR%\\LiveKernelReports，内核挂起诊断转储，体积常达数百 MB",
            var: "WINDIR",
            suffix: "LiveKernelReports",
            risk_level: JunkRiskLevel::Caution,
            requires_admin: true,
            default_selected: true,
            clean_subdirs_only: true,
            why_safe: "内核挂起时（不是蓝屏，是某次 IO 卡死）Windows 抓取的诊断数据，体积常达数百 MB。仅微软排障使用。**这次挂起已经过去了，对你没用**——但如果你正在和微软工程师诊断挂起问题，请取消勾选。",
        },
        18 => LegacyRow {
            id: "windows_update_log_legacy",
            category: JunkCategory::AppLogs,
            name: "Windows 旧版更新日志",
            description: "WindowsUpdate.log，旧版本系统遗留的纯文本更新日志，删除前请确认不再排错",
            var: "LOCALAPPDATA",
            suffix: "Microsoft\\Windows\\WindowsUpdate.log",
            risk_level: JunkRiskLevel::Risky,
            requires_admin: false,
            default_selected: false,
            clean_subdirs_only: false,
            why_safe: "Windows 7/8 时代留下的纯文本更新日志（WindowsUpdate.log），新版 Windows 已经不再写入这个文件。如果你的机器是从老版本升级来的，这条可以清。新装机器通常根本没有这个文件。默认不勾。",
        },
        19 => LegacyRow {
            id: "cbs_logs",
            category: JunkCategory::AppLogs,
            name: "CBS 组件存储日志",
            description: "%WINDIR%\\Logs\\CBS，组件服务（SFC/DISM）日志，长期累积可达数百 MB",
            var: "WINDIR",
            suffix: "Logs\\CBS",
            risk_level: JunkRiskLevel::Risky,
            requires_admin: true,
            default_selected: false,
            clean_subdirs_only: true,
            why_safe: "Windows 组件存储（CBS）操作日志，SFC /scannow、DISM 等工具的运行记录。删了**不影响 SFC/DISM 当前的工作**，但会**失去过去几次操作的记录**——如果你正在排查\"系统文件被破坏\"的问题，请取消勾选。默认不勾。",
        },
        20 => LegacyRow {
            id: "dism_logs",
            category: JunkCategory::AppLogs,
            name: "DISM 部署日志",
            description: "%WINDIR%\\Logs\\DISM，部署映像服务和管理工具日志，仅排障保留",
            var: "WINDIR",
            suffix: "Logs\\DISM",
            risk_level: JunkRiskLevel::Risky,
            requires_admin: true,
            default_selected: false,
            clean_subdirs_only: true,
            why_safe: "DISM（部署映像服务）的操作日志。和上面 CBS 是同一道理，仅排障保留，但正在排查映像问题时不要删。默认不勾。",
        },
        21 => LegacyRow {
            id: "system_font_cache",
            category: JunkCategory::FontCache,
            name: "系统字体缓存",
            description: "%WINDIR%\\ServiceProfiles\\LocalService\\AppData\\Local\\FontCache，删除后系统会重建",
            var: "WINDIR",
            suffix: "ServiceProfiles\\LocalService\\AppData\\Local\\FontCache",
            risk_level: JunkRiskLevel::Safe,
            requires_admin: true,
            default_selected: false,
            clean_subdirs_only: true,
            why_safe: "Windows 字体子系统（FontCache 服务）为加速字体渲染而缓存的索引。删除后服务自启会重建，**重建过程中首次唤起字体可能慢半秒，无其他影响**。需要管理员权限。",
        },
        22 => LegacyRow {
            id: "user_font_cache",
            category: JunkCategory::FontCache,
            name: "用户字体缓存",
            description: "%LOCALAPPDATA%\\FontCache，每用户字体缓存，删除后系统会重建",
            var: "LOCALAPPDATA",
            suffix: "FontCache",
            risk_level: JunkRiskLevel::Safe,
            requires_admin: false,
            default_selected: true,
            clean_subdirs_only: true,
            why_safe: "当前用户的字体渲染缓存。和上面同理，删了系统自动重建，仅首次渲染慢半秒。**不影响任何已安装字体**。",
        },
        23 => LegacyRow {
            id: "chrome_cache_all_profiles",
            category: JunkCategory::BrowserCache,
            name: "Chrome 缓存（全部配置）",
            description: "Chrome 所有用户配置（含 Default/Profile N）的网页缓存，删除后首次访问会重新下载",
            var: "LOCALAPPDATA",
            suffix: "Google\\Chrome\\User Data\\*\\Cache",
            risk_level: JunkRiskLevel::Safe,
            requires_admin: false,
            default_selected: true,
            clean_subdirs_only: false,
            why_safe: "浏览器加载网页时存的图片、JS、CSS 副本，下次访问会按需重新下载。不会影响你的登录状态、书签、浏览历史、扩展、保存的密码——这些都在另外的文件里，本规则不会动。",
        },
        24 => LegacyRow {
            id: "chrome_code_cache_all_profiles",
            category: JunkCategory::BrowserCache,
            name: "Chrome 代码缓存（全部配置）",
            description: "Chrome 所有配置编译后的 JavaScript/WebAssembly 缓存，可安全删除",
            var: "LOCALAPPDATA",
            suffix: "Google\\Chrome\\User Data\\*\\Code Cache",
            risk_level: JunkRiskLevel::Safe,
            requires_admin: false,
            default_selected: true,
            clean_subdirs_only: false,
            why_safe: "V8 引擎把 JavaScript / WebAssembly 编译过一遍后存下来的字节码副本，下次访问网站会自动重新编译。最坏情况是首次打开网页慢 0.5-2 秒。不会影响账号、书签、历史。",
        },
        25 => LegacyRow {
            id: "chrome_gpu_cache_all_profiles",
            category: JunkCategory::BrowserCache,
            name: "Chrome GPU 缓存（全部配置）",
            description: "Chrome 所有配置的 GPU 着色器缓存，删除后会被自动重建",
            var: "LOCALAPPDATA",
            suffix: "Google\\Chrome\\User Data\\*\\GPUCache",
            risk_level: JunkRiskLevel::Safe,
            requires_admin: false,
            default_selected: true,
            clean_subdirs_only: false,
            why_safe: "GPU 着色器编译缓存。删除后浏览器首次加载复杂网页（如 3D、视频、Canvas 动画）可能多花一两百毫秒重新编译着色器，无其他影响。不会动账号、书签或扩展。",
        },
        26 => LegacyRow {
            id: "chrome_service_worker_cachestorage_all_profiles",
            category: JunkCategory::BrowserCache,
            name: "Chrome Service Worker CacheStorage（全部配置）",
            description: "Chrome 所有配置的 Service Worker CacheStorage，可安全删除",
            var: "LOCALAPPDATA",
            suffix: "Google\\Chrome\\User Data\\*\\Service Worker\\CacheStorage",
            risk_level: JunkRiskLevel::Safe,
            requires_admin: false,
            default_selected: true,
            clean_subdirs_only: false,
            why_safe: "网页 PWA 离线模式保存的图片和脚本副本，下次访问网站会按需重新下载。不会让你登出网站、不会卸载任何已安装的 PWA、不会影响 IndexedDB 里的草稿/邮件等本地数据。",
        },
        27 => LegacyRow {
            id: "chrome_service_worker_scriptcache_all_profiles",
            category: JunkCategory::BrowserCache,
            name: "Chrome Service Worker ScriptCache（全部配置）",
            description: "Chrome 所有配置的 Service Worker 脚本缓存，可安全删除",
            var: "LOCALAPPDATA",
            suffix: "Google\\Chrome\\User Data\\*\\Service Worker\\ScriptCache",
            risk_level: JunkRiskLevel::Safe,
            requires_admin: false,
            default_selected: true,
            clean_subdirs_only: false,
            why_safe: "Service Worker 脚本本身的副本，下次访问注册了 SW 的网站会自动重新下载。不会取消任何 PWA 注册（注册信息在另外的 Database 子目录），不会影响登录态。",
        },
        28 => LegacyRow {
            id: "chrome_media_cache_all_profiles",
            category: JunkCategory::BrowserCache,
            name: "Chrome 媒体缓存（全部配置）",
            description: "Chrome 所有配置的音视频媒体缓存，可安全删除",
            var: "LOCALAPPDATA",
            suffix: "Google\\Chrome\\User Data\\*\\Media Cache",
            risk_level: JunkRiskLevel::Safe,
            requires_admin: false,
            default_selected: true,
            clean_subdirs_only: false,
            why_safe: "浏览器播放视频时缓存下来的媒体片段，下次播放同一视频会重新下载（视频流可能短暂卡顿一两秒）。不会影响登录、收藏、历史。",
        },
        29 => LegacyRow {
            id: "chrome_application_cache_all_profiles",
            category: JunkCategory::BrowserCache,
            name: "Chrome Application Cache（全部配置）",
            description: "Chrome 所有配置的旧版 Application Cache 数据，可安全删除",
            var: "LOCALAPPDATA",
            suffix: "Google\\Chrome\\User Data\\*\\Application Cache",
            risk_level: JunkRiskLevel::Safe,
            requires_admin: false,
            default_selected: true,
            clean_subdirs_only: false,
            why_safe: "Chrome 早期版本的 AppCache 离线缓存机制，现代网站早就改用 Service Worker，这里通常是空目录或废弃数据。删除一般什么都感觉不到。",
        },
        30 => LegacyRow {
            id: "chrome_shader_cache",
            category: JunkCategory::BrowserCache,
            name: "Chrome 全局 ShaderCache",
            description: "Chrome 跨配置共享的 GPU 着色器缓存，删除后会被自动重建",
            var: "LOCALAPPDATA",
            suffix: "Google\\Chrome\\User Data\\ShaderCache",
            risk_level: JunkRiskLevel::Safe,
            requires_admin: false,
            default_selected: true,
            clean_subdirs_only: false,
            why_safe: "Chrome 多个用户配置共享的 GPU 着色器编译缓存。删除后首次渲染复杂页面会重建着色器，仅多几十到几百毫秒。不会影响登录、书签、历史或扩展。",
        },
        31 => LegacyRow {
            id: "chrome_crashpad_reports",
            category: JunkCategory::CrashDump,
            name: "Chrome 崩溃报告",
            description: "Chrome Crashpad 已生成的崩溃转储与元数据，普通用户无需保留",
            var: "LOCALAPPDATA",
            suffix: "Google\\Chrome\\User Data\\Crashpad\\reports",
            risk_level: JunkRiskLevel::Safe,
            requires_admin: false,
            default_selected: true,
            clean_subdirs_only: false,
            why_safe: "Chrome 崩溃时生成的内存快照，主要给 Google 工程师排错。如果你当时没勾选上报，这些文件留在本地也没人会看。删除不影响 Chrome 任何浏览功能。",
        },
        32 => LegacyRow {
            id: "edge_cache_all_profiles",
            category: JunkCategory::BrowserCache,
            name: "Edge 缓存（全部配置）",
            description: "Edge 所有用户配置的网页缓存，删除后首次访问会重新下载",
            var: "LOCALAPPDATA",
            suffix: "Microsoft\\Edge\\User Data\\*\\Cache",
            risk_level: JunkRiskLevel::Safe,
            requires_admin: false,
            default_selected: true,
            clean_subdirs_only: false,
            why_safe: "Edge 加载网页时缓存的图片、JS、CSS 副本，下次访问会按需重新下载。不会影响你的微软账号登录、收藏夹、浏览历史、保存的密码或已安装的扩展。",
        },
        33 => LegacyRow {
            id: "edge_code_cache_all_profiles",
            category: JunkCategory::BrowserCache,
            name: "Edge 代码缓存（全部配置）",
            description: "Edge 所有配置编译后的 JavaScript/WebAssembly 缓存，可安全删除",
            var: "LOCALAPPDATA",
            suffix: "Microsoft\\Edge\\User Data\\*\\Code Cache",
            risk_level: JunkRiskLevel::Safe,
            requires_admin: false,
            default_selected: true,
            clean_subdirs_only: false,
            why_safe: "V8 引擎编译过 JavaScript / WebAssembly 后存下的字节码副本，下次访问网站会自动重新编译。最坏情况是首次打开网页慢 0.5-2 秒。不会影响登录、收藏、历史。",
        },
        34 => LegacyRow {
            id: "edge_gpu_cache_all_profiles",
            category: JunkCategory::BrowserCache,
            name: "Edge GPU 缓存（全部配置）",
            description: "Edge 所有配置的 GPU 着色器缓存，删除后会被自动重建",
            var: "LOCALAPPDATA",
            suffix: "Microsoft\\Edge\\User Data\\*\\GPUCache",
            risk_level: JunkRiskLevel::Safe,
            requires_admin: false,
            default_selected: true,
            clean_subdirs_only: false,
            why_safe: "GPU 着色器编译缓存。删除后 Edge 首次加载复杂网页可能多花一两百毫秒重新编译，无其他影响。不会动账号、收藏夹、扩展。",
        },
        35 => LegacyRow {
            id: "edge_service_worker_cachestorage_all_profiles",
            category: JunkCategory::BrowserCache,
            name: "Edge Service Worker CacheStorage（全部配置）",
            description: "Edge 所有配置的 Service Worker CacheStorage，可安全删除",
            var: "LOCALAPPDATA",
            suffix: "Microsoft\\Edge\\User Data\\*\\Service Worker\\CacheStorage",
            risk_level: JunkRiskLevel::Safe,
            requires_admin: false,
            default_selected: true,
            clean_subdirs_only: false,
            why_safe: "网页 PWA 离线模式保存的图片和脚本副本，下次访问网站会按需重新下载。不会让你登出网站、不会卸载任何已安装的 PWA、不会影响 IndexedDB 里的本地数据。",
        },
        36 => LegacyRow {
            id: "edge_media_cache_all_profiles",
            category: JunkCategory::BrowserCache,
            name: "Edge 媒体缓存（全部配置）",
            description: "Edge 所有配置的音视频媒体缓存，可安全删除",
            var: "LOCALAPPDATA",
            suffix: "Microsoft\\Edge\\User Data\\*\\Media Cache",
            risk_level: JunkRiskLevel::Safe,
            requires_admin: false,
            default_selected: true,
            clean_subdirs_only: false,
            why_safe: "Edge 播放视频时缓存的媒体片段，下次播放同一视频要重新下载（短暂卡顿一两秒）。不会影响登录、收藏、历史。",
        },
        37 => LegacyRow {
            id: "edge_shader_cache",
            category: JunkCategory::BrowserCache,
            name: "Edge 全局 ShaderCache",
            description: "Edge 跨配置共享的 GPU 着色器缓存，删除后会被自动重建",
            var: "LOCALAPPDATA",
            suffix: "Microsoft\\Edge\\User Data\\ShaderCache",
            risk_level: JunkRiskLevel::Safe,
            requires_admin: false,
            default_selected: true,
            clean_subdirs_only: false,
            why_safe: "Edge 多个用户配置共享的 GPU 着色器编译缓存。删除后首次渲染复杂页面会重建，仅多几十到几百毫秒。不会影响微软账号、收藏夹或扩展。",
        },
        38 => LegacyRow {
            id: "edge_crashpad_reports",
            category: JunkCategory::CrashDump,
            name: "Edge 崩溃报告",
            description: "Edge Crashpad 已生成的崩溃转储与元数据，普通用户无需保留",
            var: "LOCALAPPDATA",
            suffix: "Microsoft\\Edge\\User Data\\Crashpad\\reports",
            risk_level: JunkRiskLevel::Safe,
            requires_admin: false,
            default_selected: true,
            clean_subdirs_only: false,
            why_safe: "Edge 崩溃时生成的内存快照，主要给微软工程师排错。已经过去的崩溃如果你没上报，留在本地也没人会看。删除不影响 Edge 任何浏览功能。",
        },
        39 => LegacyRow {
            id: "firefox_startup_cache",
            category: JunkCategory::BrowserCache,
            name: "Firefox 启动缓存",
            description: "Firefox 各配置的启动加速缓存，删除后下一次启动会重建",
            var: "LOCALAPPDATA",
            suffix: "Mozilla\\Firefox\\Profiles\\*\\startupCache",
            risk_level: JunkRiskLevel::Safe,
            requires_admin: false,
            default_selected: true,
            clean_subdirs_only: false,
            why_safe: "Firefox 启动时为加速 XPCOM 组件和插件加载而缓存的二进制索引。删除后首次启动 Firefox 会慢 1-2 秒，仅一次。不会影响账号登录、扩展、书签或浏览历史。",
        },
        40 => LegacyRow {
            id: "firefox_jumplist_cache",
            category: JunkCategory::BrowserCache,
            name: "Firefox 跳转列表缓存",
            description: "Firefox 任务栏跳转列表缩略图缓存，可安全删除",
            var: "LOCALAPPDATA",
            suffix: "Mozilla\\Firefox\\Profiles\\*\\jumpListCache",
            risk_level: JunkRiskLevel::Safe,
            requires_admin: false,
            default_selected: true,
            clean_subdirs_only: false,
            why_safe: "任务栏右键 Firefox 时弹出的最近访问站点小图标缓存。删除后下次右键任务栏可能短暂没图标，Firefox 自动重建。不会影响书签、历史或扩展。",
        },
        41 => LegacyRow {
            id: "firefox_offline_cache",
            category: JunkCategory::BrowserCache,
            name: "Firefox 离线缓存",
            description: "Firefox 各配置的旧版离线 AppCache，可安全删除",
            var: "LOCALAPPDATA",
            suffix: "Mozilla\\Firefox\\Profiles\\*\\OfflineCache",
            risk_level: JunkRiskLevel::Safe,
            requires_admin: false,
            default_selected: true,
            clean_subdirs_only: false,
            why_safe: "Firefox 旧版 AppCache 离线应用缓存机制（W3C 已废弃），现代网站基本不再使用。删除一般什么感觉都没有。不会影响登录、书签或扩展。",
        },
        42 => LegacyRow {
            id: "firefox_thumbnails",
            category: JunkCategory::BrowserCache,
            name: "Firefox 新标签页缩略图",
            description: "Firefox 新标签页缩略图缓存，删除后会被自动重建",
            var: "LOCALAPPDATA",
            suffix: "Mozilla\\Firefox\\Profiles\\*\\thumbnails",
            risk_level: JunkRiskLevel::Safe,
            requires_admin: false,
            default_selected: true,
            clean_subdirs_only: false,
            why_safe: "Firefox 新标签页里常访问网站那些方块缩略图。删除后下次打开新标签页会先显示几秒空白占位符，Firefox 会重新截图生成。不会影响书签或历史本身。",
        },
        43 => LegacyRow {
            id: "firefox_crash_reports",
            category: JunkCategory::CrashDump,
            name: "Firefox 崩溃报告",
            description: "Firefox 崩溃报告器记录的崩溃转储与待提交元数据，可安全删除",
            var: "APPDATA",
            suffix: "Mozilla\\Firefox\\Crash Reports",
            risk_level: JunkRiskLevel::Safe,
            requires_admin: false,
            default_selected: true,
            clean_subdirs_only: true,
            why_safe: "Firefox 崩溃时生成的小型转储文件和待提交元数据，主要给 Mozilla 工程师排错。如果你没在反馈崩溃问题，这些文件就再无用处。删除不影响 Firefox 任何浏览功能。",
        },
        44 => LegacyRow {
            id: "brave_cache_all_profiles",
            category: JunkCategory::BrowserCache,
            name: "Brave 缓存（全部配置）",
            description: "Brave 所有用户配置的网页缓存，删除后首次访问会重新下载",
            var: "LOCALAPPDATA",
            suffix: "BraveSoftware\\Brave-Browser\\User Data\\*\\Cache",
            risk_level: JunkRiskLevel::Safe,
            requires_admin: false,
            default_selected: true,
            clean_subdirs_only: false,
            why_safe: "Brave 加载网页时缓存的图片、JS、CSS 副本，下次访问会按需重新下载。不会影响你的 Brave 钱包、奖励 BAT、登录态、书签、历史或扩展。",
        },
        45 => LegacyRow {
            id: "brave_code_cache_all_profiles",
            category: JunkCategory::BrowserCache,
            name: "Brave 代码缓存（全部配置）",
            description: "Brave 所有配置编译后的 JavaScript/WebAssembly 缓存，可安全删除",
            var: "LOCALAPPDATA",
            suffix: "BraveSoftware\\Brave-Browser\\User Data\\*\\Code Cache",
            risk_level: JunkRiskLevel::Safe,
            requires_admin: false,
            default_selected: true,
            clean_subdirs_only: false,
            why_safe: "V8 编译过的 JavaScript / WebAssembly 字节码副本，下次访问网站会自动重新编译。最坏首次打开网页慢 0.5-2 秒。不会触及 Brave 钱包或任何账号数据。",
        },
        46 => LegacyRow {
            id: "brave_gpu_cache_all_profiles",
            category: JunkCategory::BrowserCache,
            name: "Brave GPU 缓存（全部配置）",
            description: "Brave 所有配置的 GPU 着色器缓存，删除后会被自动重建",
            var: "LOCALAPPDATA",
            suffix: "BraveSoftware\\Brave-Browser\\User Data\\*\\GPUCache",
            risk_level: JunkRiskLevel::Safe,
            requires_admin: false,
            default_selected: true,
            clean_subdirs_only: false,
            why_safe: "GPU 着色器编译缓存。删除后 Brave 首次渲染复杂页面会多花一两百毫秒重建着色器，无其他影响。不会动钱包、书签或扩展。",
        },
        47 => LegacyRow {
            id: "opera_cache",
            category: JunkCategory::BrowserCache,
            name: "Opera 缓存",
            description: "Opera Stable 网页缓存，删除后首次访问会重新下载",
            var: "APPDATA",
            suffix: "Opera Software\\Opera Stable\\Cache",
            risk_level: JunkRiskLevel::Safe,
            requires_admin: false,
            default_selected: true,
            clean_subdirs_only: false,
            why_safe: "Opera 加载网页时存的图片、JS、CSS 副本，下次访问会按需重新下载。不会影响你的 Opera 账号、内置 VPN 设置、收藏夹、扩展或浏览历史。",
        },
        48 => LegacyRow {
            id: "opera_code_cache",
            category: JunkCategory::BrowserCache,
            name: "Opera 代码缓存",
            description: "Opera Stable 编译后的 JavaScript/WebAssembly 缓存，可安全删除",
            var: "APPDATA",
            suffix: "Opera Software\\Opera Stable\\Code Cache",
            risk_level: JunkRiskLevel::Safe,
            requires_admin: false,
            default_selected: true,
            clean_subdirs_only: false,
            why_safe: "V8 编译过的 JavaScript / WebAssembly 字节码副本，下次访问网站会自动重编译。最坏首次打开网页慢 0.5-2 秒。不会影响登录、收藏或扩展。",
        },
        49 => LegacyRow {
            id: "opera_gpu_cache",
            category: JunkCategory::BrowserCache,
            name: "Opera GPU 缓存",
            description: "Opera Stable 的 GPU 着色器缓存，删除后会被自动重建",
            var: "APPDATA",
            suffix: "Opera Software\\Opera Stable\\GPUCache",
            risk_level: JunkRiskLevel::Safe,
            requires_admin: false,
            default_selected: true,
            clean_subdirs_only: false,
            why_safe: "GPU 着色器编译缓存。删除后 Opera 首次渲染复杂页面会多花一两百毫秒，无其他影响。不会动账号或扩展。",
        },
        50 => LegacyRow {
            id: "vivaldi_cache_all_profiles",
            category: JunkCategory::BrowserCache,
            name: "Vivaldi 缓存（全部配置）",
            description: "Vivaldi 所有用户配置的网页缓存，删除后首次访问会重新下载",
            var: "LOCALAPPDATA",
            suffix: "Vivaldi\\User Data\\*\\Cache",
            risk_level: JunkRiskLevel::Safe,
            requires_admin: false,
            default_selected: true,
            clean_subdirs_only: false,
            why_safe: "Vivaldi 加载网页时存的图片、JS、CSS 副本，下次访问会按需重新下载。不会影响你的同步账号、标签会话、笔记、书签或扩展。",
        },
        51 => LegacyRow {
            id: "vivaldi_code_cache_all_profiles",
            category: JunkCategory::BrowserCache,
            name: "Vivaldi 代码缓存（全部配置）",
            description: "Vivaldi 所有配置编译后的 JavaScript/WebAssembly 缓存，可安全删除",
            var: "LOCALAPPDATA",
            suffix: "Vivaldi\\User Data\\*\\Code Cache",
            risk_level: JunkRiskLevel::Safe,
            requires_admin: false,
            default_selected: true,
            clean_subdirs_only: false,
            why_safe: "V8 编译过的 JavaScript / WebAssembly 字节码副本，下次访问网站会自动重编译。最坏首次打开网页慢 0.5-2 秒。不会影响 Vivaldi 的笔记或会话。",
        },
        52 => LegacyRow {
            id: "vivaldi_gpu_cache_all_profiles",
            category: JunkCategory::BrowserCache,
            name: "Vivaldi GPU 缓存（全部配置）",
            description: "Vivaldi 所有配置的 GPU 着色器缓存，删除后会被自动重建",
            var: "LOCALAPPDATA",
            suffix: "Vivaldi\\User Data\\*\\GPUCache",
            risk_level: JunkRiskLevel::Safe,
            requires_admin: false,
            default_selected: true,
            clean_subdirs_only: false,
            why_safe: "GPU 着色器编译缓存。删除后 Vivaldi 首次渲染复杂页面会多花一两百毫秒，无其他影响。不会触及笔记或扩展。",
        },
        53 => LegacyRow {
            id: "qihoo_360_cache",
            category: JunkCategory::BrowserCache,
            name: "360 安全浏览器缓存",
            description: "360 安全浏览器（360se6）默认配置的网页缓存，可安全删除",
            var: "APPDATA",
            suffix: "360se6\\User Data\\Default\\Cache",
            risk_level: JunkRiskLevel::Safe,
            requires_admin: false,
            default_selected: true,
            clean_subdirs_only: false,
            why_safe: "360 安全浏览器默认配置的网页缓存，下次访问网站会按需重新下载。不会影响 360 账号登录、收藏夹、浏览历史或已装扩展。",
        },
        54 => LegacyRow {
            id: "tencent_qqbrowser_cache",
            category: JunkCategory::BrowserCache,
            name: "QQ 浏览器缓存",
            description: "QQ 浏览器默认配置的网页缓存，可安全删除",
            var: "APPDATA",
            suffix: "Tencent\\QQBrowser\\User Data\\Default\\Cache",
            risk_level: JunkRiskLevel::Safe,
            requires_admin: false,
            default_selected: true,
            clean_subdirs_only: false,
            why_safe: "QQ 浏览器默认配置的网页缓存，下次访问网站会重新下载。不会影响 QQ 账号、书签、浏览历史，也不会清掉登录态。",
        },
        55 => LegacyRow {
            id: "ie_inetcache",
            category: JunkCategory::BrowserCache,
            name: "Internet Explorer 临时文件",
            description: "INetCache 中的 IE/旧版 WebView 网页缓存，删除后首次访问会重新下载",
            var: "LOCALAPPDATA",
            suffix: "Microsoft\\Windows\\INetCache",
            risk_level: JunkRiskLevel::Safe,
            requires_admin: false,
            default_selected: true,
            clean_subdirs_only: true,
            why_safe: "IE 和系统旧版 WebView/MSHTML 控件的网页缓存。如今 Edge / Chrome 都不读这里，删除几乎无感。如果偶尔还有老旧网银插件依赖 IE，首次重新访问可能略慢。",
        },
        56 => LegacyRow {
            id: "ie_webcache",
            category: JunkCategory::BrowserCache,
            name: "Internet Explorer WebCache",
            description: "WebCache 中含 IE/旧版 WebView 的访问历史，删除会清空浏览记录",
            var: "LOCALAPPDATA",
            suffix: "Microsoft\\Windows\\WebCache",
            risk_level: JunkRiskLevel::Caution,
            requires_admin: false,
            default_selected: false,
            clean_subdirs_only: true,
            why_safe: "IE 和旧版 WebView 的浏览历史数据库。新版 Chrome / Edge 不读这里。若你不再用 IE，删除无感；但若你还在用某些公司内网工具读这个库，删后这些工具读不到上次访问记录。日常不勾。",
        },
        57 => LegacyRow {
            id: "ie_inetcookies",
            category: JunkCategory::BrowserCache,
            name: "Internet Explorer Cookies",
            description: "INetCookies 含 IE/旧版 WebView 的 Cookie，删除会导致相关网站登出",
            var: "LOCALAPPDATA",
            suffix: "Microsoft\\Windows\\INetCookies",
            risk_level: JunkRiskLevel::Caution,
            requires_admin: false,
            default_selected: false,
            clean_subdirs_only: true,
            why_safe: "IE 和旧版 WebView 控件的 Cookie。如果你还在用 IE 或某些老旧网银控件，删了要重登。新版 Chrome / Edge 的登录态不在这里。日常不勾。",
        },
        58 => LegacyRow {
            id: "teams_classic_cache",
            category: JunkCategory::BrowserCache,
            name: "Microsoft Teams（经典版）网页缓存",
            description: "Teams 经典版内嵌 Electron 的网页缓存，可安全删除",
            var: "APPDATA",
            suffix: "Microsoft\\Teams\\Cache",
            risk_level: JunkRiskLevel::Safe,
            requires_admin: false,
            default_selected: true,
            clean_subdirs_only: false,
            why_safe: "经典版 Teams（Electron 内核）的网页层缓存。下次启动 Teams 头像和图片会按需重下。不会让你登出 Teams、不会丢任何会议历史或聊天记录。",
        },
        59 => LegacyRow {
            id: "teams_classic_code_cache",
            category: JunkCategory::BrowserCache,
            name: "Microsoft Teams（经典版）代码缓存",
            description: "Teams 经典版编译后的 JavaScript/WebAssembly 缓存，可安全删除",
            var: "APPDATA",
            suffix: "Microsoft\\Teams\\Code Cache",
            risk_level: JunkRiskLevel::Safe,
            requires_admin: false,
            default_selected: true,
            clean_subdirs_only: false,
            why_safe: "Teams 内嵌 V8 引擎编译过的字节码副本，下次启动会自动重新编译。最坏 Teams 启动慢 1-2 秒一次。不会让你登出，也不会丢聊天。",
        },
        60 => LegacyRow {
            id: "teams_classic_gpu_cache",
            category: JunkCategory::BrowserCache,
            name: "Microsoft Teams（经典版）GPU 缓存",
            description: "Teams 经典版的 GPU 着色器缓存，删除后会被自动重建",
            var: "APPDATA",
            suffix: "Microsoft\\Teams\\GPUCache",
            risk_level: JunkRiskLevel::Safe,
            requires_admin: false,
            default_selected: true,
            clean_subdirs_only: false,
            why_safe: "Teams 内嵌 Chromium 的 GPU 着色器缓存。删除后下次启动会重建，仅几十毫秒到几百毫秒影响。不会动账号或聊天数据。",
        },
        61 => LegacyRow {
            id: "teams_classic_blob_storage",
            category: JunkCategory::BrowserCache,
            name: "Microsoft Teams（经典版）Blob 存储缓存",
            description: "Teams 经典版的 blob_storage 临时数据，可安全删除",
            var: "APPDATA",
            suffix: "Microsoft\\Teams\\blob_storage",
            risk_level: JunkRiskLevel::Safe,
            requires_admin: false,
            default_selected: true,
            clean_subdirs_only: false,
            why_safe: "Teams 内嵌 Chromium 临时存放 JS Blob 对象的目录（如发送中的图片分块）。Teams 关闭后这里通常已无用。不会影响登录或聊天记录。",
        },
        62 => LegacyRow {
            id: "teams_classic_service_worker",
            category: JunkCategory::BrowserCache,
            name: "Microsoft Teams（经典版）Service Worker 缓存",
            description: "Teams 经典版的 Service Worker CacheStorage，可安全删除",
            var: "APPDATA",
            suffix: "Microsoft\\Teams\\Service Worker\\CacheStorage",
            risk_level: JunkRiskLevel::Safe,
            requires_admin: false,
            default_selected: true,
            clean_subdirs_only: false,
            why_safe: "Teams 网页 Service Worker 缓存的资源副本（脚本、图标等）。下次启动 Teams 会按需重新下载，不会让你登出、不会丢任何聊天或会议。",
        },
        63 => LegacyRow {
            id: "teams_new_local_cache",
            category: JunkCategory::BrowserCache,
            name: "Microsoft Teams（新版）本地缓存",
            description: "新版 Teams（UWP）LocalCache 目录中的临时缓存，可安全删除",
            var: "LOCALAPPDATA",
            suffix: "Packages\\MSTeams_8wekyb3d8bbwe\\LocalCache",
            risk_level: JunkRiskLevel::Safe,
            requires_admin: false,
            default_selected: true,
            clean_subdirs_only: true,
            why_safe: "新版 Teams（应用商店版）UWP 沙箱中的临时缓存。下次启动 Teams 会按需重建，头像与缩略图可能要重新加载。不会让你登出，也不会丢聊天或组织数据。",
        },
        64 => LegacyRow {
            id: "slack_cache",
            category: JunkCategory::BrowserCache,
            name: "Slack 网页缓存",
            description: "Slack 桌面端内嵌 Electron 的网页缓存，可安全删除",
            var: "APPDATA",
            suffix: "Slack\\Cache",
            risk_level: JunkRiskLevel::Safe,
            requires_admin: false,
            default_selected: true,
            clean_subdirs_only: false,
            why_safe: "Slack 桌面端（Electron 内核）的网页层缓存。下次启动会按需重新拉取头像、表情图等。不会让你登出工作区、不会丢任何历史消息或频道列表。",
        },
        65 => LegacyRow {
            id: "slack_code_cache",
            category: JunkCategory::BrowserCache,
            name: "Slack 代码缓存",
            description: "Slack 桌面端编译后的 JavaScript/WebAssembly 缓存，可安全删除",
            var: "APPDATA",
            suffix: "Slack\\Code Cache",
            risk_level: JunkRiskLevel::Safe,
            requires_admin: false,
            default_selected: true,
            clean_subdirs_only: false,
            why_safe: "Slack 内嵌 V8 编译过的字节码副本，下次启动会自动重新编译。最坏 Slack 启动慢 1-2 秒一次。不会让你登出，也不会丢消息。",
        },
        66 => LegacyRow {
            id: "slack_gpu_cache",
            category: JunkCategory::BrowserCache,
            name: "Slack GPU 缓存",
            description: "Slack 桌面端的 GPU 着色器缓存，删除后会被自动重建",
            var: "APPDATA",
            suffix: "Slack\\GPUCache",
            risk_level: JunkRiskLevel::Safe,
            requires_admin: false,
            default_selected: true,
            clean_subdirs_only: false,
            why_safe: "Slack 内嵌 Chromium 的 GPU 着色器缓存。删除后 Slack 首次渲染消息列表可能多几十毫秒，无其他影响。不会动账号或工作区。",
        },
        67 => LegacyRow {
            id: "slack_service_worker",
            category: JunkCategory::BrowserCache,
            name: "Slack Service Worker 缓存",
            description: "Slack 桌面端的 Service Worker CacheStorage，可安全删除",
            var: "APPDATA",
            suffix: "Slack\\Service Worker\\CacheStorage",
            risk_level: JunkRiskLevel::Safe,
            requires_admin: false,
            default_selected: true,
            clean_subdirs_only: false,
            why_safe: "Slack 网页 Service Worker 缓存的图片、表情、Bot 头像副本。下次启动会按需重下。不会让你登出、不会丢工作区或消息历史。",
        },
        68 => LegacyRow {
            id: "discord_cache",
            category: JunkCategory::BrowserCache,
            name: "Discord 网页缓存",
            description: "Discord 桌面端内嵌 Electron 的网页缓存，可安全删除",
            var: "APPDATA",
            suffix: "discord\\Cache",
            risk_level: JunkRiskLevel::Safe,
            requires_admin: false,
            default_selected: true,
            clean_subdirs_only: false,
            why_safe: "Discord 桌面端的网页层缓存（用户头像、表情、附件图片副本）。下次启动会按需重下。不会让你登出账号、不会丢服务器、不会丢消息记录。",
        },
        69 => LegacyRow {
            id: "discord_code_cache",
            category: JunkCategory::BrowserCache,
            name: "Discord 代码缓存",
            description: "Discord 桌面端编译后的 JavaScript/WebAssembly 缓存，可安全删除",
            var: "APPDATA",
            suffix: "discord\\Code Cache",
            risk_level: JunkRiskLevel::Safe,
            requires_admin: false,
            default_selected: true,
            clean_subdirs_only: false,
            why_safe: "Discord 内嵌 V8 编译过的字节码副本，下次启动会自动重新编译。最坏 Discord 启动慢 1-2 秒一次。不会让你登出或丢任何数据。",
        },
        70 => LegacyRow {
            id: "discord_gpu_cache",
            category: JunkCategory::BrowserCache,
            name: "Discord GPU 缓存",
            description: "Discord 桌面端的 GPU 着色器缓存，删除后会被自动重建",
            var: "APPDATA",
            suffix: "discord\\GPUCache",
            risk_level: JunkRiskLevel::Safe,
            requires_admin: false,
            default_selected: true,
            clean_subdirs_only: false,
            why_safe: "Discord 内嵌 Chromium 的 GPU 着色器缓存。删除后首次启动可能多几十毫秒。不会动账号、服务器列表或好友列表。",
        },
        71 => LegacyRow {
            id: "skype_cache",
            category: JunkCategory::BrowserCache,
            name: "Skype 网页缓存",
            description: "Skype 桌面端内嵌 Electron 的网页缓存，可安全删除",
            var: "APPDATA",
            suffix: "Microsoft\\Skype for Desktop\\Cache",
            risk_level: JunkRiskLevel::Safe,
            requires_admin: false,
            default_selected: true,
            clean_subdirs_only: false,
            why_safe: "Skype 桌面端的网页层缓存。下次启动会按需重新拉取头像、表情等。不会让你登出 Skype，也不会丢任何聊天或通话记录。",
        },
        72 => LegacyRow {
            id: "skype_gpu_cache",
            category: JunkCategory::BrowserCache,
            name: "Skype GPU 缓存",
            description: "Skype 桌面端的 GPU 着色器缓存，删除后会被自动重建",
            var: "APPDATA",
            suffix: "Microsoft\\Skype for Desktop\\GPUCache",
            risk_level: JunkRiskLevel::Safe,
            requires_admin: false,
            default_selected: true,
            clean_subdirs_only: false,
            why_safe: "Skype 内嵌 Chromium 的 GPU 着色器缓存。删除后首次启动可能多几十毫秒，无其他影响。不会动账号或聊天记录。",
        },
        73 => LegacyRow {
            id: "telegram_cache",
            category: JunkCategory::BrowserCache,
            name: "Telegram Desktop 缓存",
            description: "Telegram Desktop 在 tdata\\user_data\\cache 中保存的媒体缓存，删除后会按需重新下载",
            var: "APPDATA",
            suffix: "Telegram Desktop\\tdata\\user_data\\cache",
            risk_level: JunkRiskLevel::Safe,
            requires_admin: false,
            default_selected: true,
            clean_subdirs_only: false,
            why_safe: "Telegram 缓存的图片、贴纸、视频缩略图副本。下次查看聊天时会按需重新下载。不会让你登出账号（登录态在 tdata 根目录，本规则不动）、不会丢任何消息或会话密钥。",
        },
        74 => LegacyRow {
            id: "wechat_cache_only",
            category: JunkCategory::BrowserCache,
            name: "微信公共配置缓存",
            description: "WeChat Files\\All Users\\config\\cache 中的非用户聊天数据缓存，可安全删除",
            var: "USERPROFILE",
            suffix: "Documents\\WeChat Files\\All Users\\config\\cache",
            risk_level: JunkRiskLevel::Safe,
            requires_admin: false,
            default_selected: true,
            clean_subdirs_only: false,
            why_safe: "微信公共配置目录下的程序缓存（小程序运行残留、UI 资源等），路径上不含具体用户的聊天数据库。不会让你重新扫码登录，不会触及聊天记录或收到的文件。",
        },
        75 => LegacyRow {
            id: "qq_websearch_cache",
            category: JunkCategory::BrowserCache,
            name: "QQ 内嵌网页搜索缓存",
            description: "QQ 客户端 WebSearchCache 中的内嵌网页搜索缓存，不包含聊天记录，可安全删除",
            var: "APPDATA",
            suffix: "Tencent\\QQ\\WebSearchCache",
            risk_level: JunkRiskLevel::Safe,
            requires_admin: false,
            default_selected: true,
            clean_subdirs_only: false,
            why_safe: "QQ 客户端内嵌网页（搜一搜、新闻、广告位等）的临时缓存。不在聊天记录路径上，不会让你重登 QQ，也不会丢任何接收过的文件、图片或表情。",
        },
        76 => LegacyRow {
            id: "dingtalk_cache",
            category: JunkCategory::AppLogs,
            name: "钉钉滚动日志",
            description: "DingTalk\\rolling_logs 客户端运行日志，仅排错保留，删除不影响登录",
            var: "APPDATA",
            suffix: "DingTalk\\rolling_logs",
            risk_level: JunkRiskLevel::Caution,
            requires_admin: false,
            default_selected: false,
            clean_subdirs_only: false,
            why_safe: "钉钉客户端的滚动调试日志，只有在和钉钉客服或公司 IT 排查问题时才会用到。不会丢账号、聊天、会议或文件。日常不勾；如果当前正在排查钉钉问题，请保留这些日志。",
        },
        77 => LegacyRow {
            id: "vscode_cache",
            category: JunkCategory::BrowserCache,
            name: "VSCode 缓存",
            description: "VSCode 网络与资源缓存，删除后会自动重建",
            var: "APPDATA",
            suffix: "Code\\Cache",
            risk_level: JunkRiskLevel::Safe,
            requires_admin: false,
            default_selected: true,
            clean_subdirs_only: false,
            why_safe: "VSCode 从扩展市场和远程仓库下载内容时存的网络副本。不会影响你的扩展、设置、打开过的文件、调试配置——这些都在别处。删了下次打开应用市场或加载远程内容时会重新拉。",
        },
        78 => LegacyRow {
            id: "vscode_cached_data",
            category: JunkCategory::BrowserCache,
            name: "VSCode 启动缓存",
            description: "VSCode 预编译启动缓存（CachedData），删除后下次启动会重建",
            var: "APPDATA",
            suffix: "Code\\CachedData",
            risk_level: JunkRiskLevel::Safe,
            requires_admin: false,
            default_selected: true,
            clean_subdirs_only: false,
            why_safe: "VSCode 为加速启动预编译的 JavaScript 字节码缓存。删除后下一次启动会慢 1-2 秒重建，之后就和原来一样。不会影响你的工作区、扩展、设置、键位绑定。",
        },
        79 => LegacyRow {
            id: "vscode_cached_extensions",
            category: JunkCategory::BrowserCache,
            name: "VSCode 扩展元数据缓存",
            description: "VSCode CachedExtensions，扩展元数据缓存",
            var: "APPDATA",
            suffix: "Code\\CachedExtensions",
            risk_level: JunkRiskLevel::Safe,
            requires_admin: false,
            default_selected: true,
            clean_subdirs_only: false,
            why_safe: "VSCode 给已安装扩展生成的元数据索引（不是扩展本体）。已安装的扩展位于 .vscode\\extensions，不会被动。删了下次启动 VSCode 会自动重建索引，过程不可感知。",
        },
        80 => LegacyRow {
            id: "vscode_cached_extension_vsixs",
            category: JunkCategory::BrowserCache,
            name: "VSCode 扩展安装包缓存",
            description: "VSCode 已下载的扩展 VSIX 安装包缓存",
            var: "APPDATA",
            suffix: "Code\\CachedExtensionVSIXs",
            risk_level: JunkRiskLevel::Safe,
            requires_admin: false,
            default_selected: true,
            clean_subdirs_only: false,
            why_safe: "VSCode 安装扩展时下载的 .vsix 压缩包副本，扩展安装完成后这些包就没用了。不会影响已安装的扩展本体（在另一个目录）。删了下次要安装新扩展时正常下载，不变慢。",
        },
        81 => LegacyRow {
            id: "vscode_gpu_cache",
            category: JunkCategory::BrowserCache,
            name: "VSCode GPU 缓存",
            description: "VSCode 编辑器 GPU 着色器缓存，删除后会自动重建",
            var: "APPDATA",
            suffix: "Code\\GPUCache",
            risk_level: JunkRiskLevel::Safe,
            requires_admin: false,
            default_selected: true,
            clean_subdirs_only: false,
            why_safe: "VSCode 内嵌 Chromium 给界面渲染存的着色器副本。删了下次启动时第一次绘制窗口会慢一瞬间，之后无感。不会影响你的代码、扩展、主题、字体设置。",
        },
        82 => LegacyRow {
            id: "vscode_service_worker",
            category: JunkCategory::BrowserCache,
            name: "VSCode Service Worker 缓存",
            description: "VSCode 内嵌 Service Worker 缓存",
            var: "APPDATA",
            suffix: "Code\\Service Worker\\CacheStorage",
            risk_level: JunkRiskLevel::Safe,
            requires_admin: false,
            default_selected: true,
            clean_subdirs_only: false,
            why_safe: "VSCode 内嵌 Chromium Service Worker 离线缓存，主要给 Web 视图（Markdown 预览等）用。不会影响你的扩展数据、设置、工作区。删了下次打开 Web 视图重新拉资源，影响不可感知。",
        },
        83 => LegacyRow {
            id: "vscode_logs",
            category: JunkCategory::AppLogs,
            name: "VSCode 日志",
            description: "VSCode 各窗口与扩展日志，仅排障保留",
            var: "APPDATA",
            suffix: "Code\\logs",
            risk_level: JunkRiskLevel::Caution,
            requires_admin: false,
            default_selected: false,
            clean_subdirs_only: true,
            why_safe: "VSCode 主进程、扩展宿主、各窗口的运行日志。不会影响你的代码、设置、扩展。但如果你正在排查 VSCode 启动慢、扩展崩溃等问题，这里是开发者第一眼要看的——排障期间不要清。日常体积通常几十 MB。",
        },
        84 => LegacyRow {
            id: "vscode_crashpad",
            category: JunkCategory::CrashDump,
            name: "VSCode 崩溃转储",
            description: "VSCode Crashpad 崩溃转储数据，仅排障保留",
            var: "APPDATA",
            suffix: "Code\\Crashpad",
            risk_level: JunkRiskLevel::Safe,
            requires_admin: false,
            default_selected: true,
            clean_subdirs_only: true,
            why_safe: "VSCode 崩溃瞬间的内存快照，主要给微软排错用。已经发生过的崩溃用不上这些转储，留着只占空间。不会影响 VSCode 的任何功能。",
        },
        85 => LegacyRow {
            id: "jetbrains_user_caches",
            category: JunkCategory::ThumbnailCache,
            name: "JetBrains IDE 缓存",
            description: "JetBrains 各 IDE（IntelliJ/PyCharm/WebStorm 等）缓存",
            var: "LOCALAPPDATA",
            suffix: "JetBrains\\*\\caches",
            risk_level: JunkRiskLevel::Safe,
            requires_admin: false,
            default_selected: true,
            clean_subdirs_only: false,
            why_safe: "JetBrains 各 IDE 给打开过的项目生成的解析缓存（类引用、外部库扫描结果）。不会动你的设置、插件、Local History、项目源码。删了下次打开大项目会有几分钟的索引重建，仅一次。",
        },
        86 => LegacyRow {
            id: "jetbrains_user_log",
            category: JunkCategory::AppLogs,
            name: "JetBrains IDE 日志",
            description: "JetBrains 各 IDE 日志，仅排障保留",
            var: "LOCALAPPDATA",
            suffix: "JetBrains\\*\\log",
            risk_level: JunkRiskLevel::Caution,
            requires_admin: false,
            default_selected: false,
            clean_subdirs_only: true,
            why_safe: "JetBrains IDE 主进程和插件的运行日志，不会影响代码、设置、插件。但如果你正在排查 IDE 卡死、内存暴涨、插件冲突，开发者支持会要你提供这里的日志——排障期间不要清。",
        },
        87 => LegacyRow {
            id: "jetbrains_user_system_caches",
            category: JunkCategory::ThumbnailCache,
            name: "JetBrains 系统级缓存",
            description: "JetBrains 各 IDE system\\caches 子目录",
            var: "LOCALAPPDATA",
            suffix: "JetBrains\\*\\system\\caches",
            risk_level: JunkRiskLevel::Safe,
            requires_admin: false,
            default_selected: true,
            clean_subdirs_only: false,
            why_safe: "JetBrains IDE 内部解析缓存（项目结构、外部依赖摘要），是性能加速副本。不会影响你的项目源码、设置、Local History、插件、键位映射。删了下次打开大项目可能要等几分钟重新索引，之后照常。",
        },
        88 => LegacyRow {
            id: "jetbrains_user_indexes",
            category: JunkCategory::ThumbnailCache,
            name: "JetBrains 索引",
            description: "JetBrains 项目索引数据，删除后重启 IDE 会重新索引（大型项目可能需要数分钟）",
            var: "LOCALAPPDATA",
            suffix: "JetBrains\\*\\index",
            risk_level: JunkRiskLevel::Safe,
            requires_admin: false,
            default_selected: true,
            clean_subdirs_only: false,
            why_safe: "JetBrains IDE 为代码补全和跳转生成的索引数据。删了下次打开大型项目（百万行级）可能要 3-10 分钟重新索引，期间补全和跳转会变慢。不会丢任何代码、设置、Local History。",
        },
        89 => LegacyRow {
            id: "visualstudio_componentmodelcache",
            category: JunkCategory::ThumbnailCache,
            name: "Visual Studio MEF 组件缓存",
            description: "Visual Studio ComponentModelCache，启动异常时常清理，重启 VS 后会重建",
            var: "LOCALAPPDATA",
            suffix: "Microsoft\\VisualStudio\\*\\ComponentModelCache",
            risk_level: JunkRiskLevel::Safe,
            requires_admin: false,
            default_selected: true,
            clean_subdirs_only: false,
            why_safe: "Visual Studio 给已加载扩展生成的 MEF 组合缓存。VS 启动卡住时官方文档第一步就是删这个目录。删了下次启动 VS 会重建，多 5-10 秒启动时间。不会影响你的工程、扩展、设置。",
        },
        90 => LegacyRow {
            id: "visualstudio_temp",
            category: JunkCategory::SystemTemp,
            name: "Visual Studio 临时目录",
            description: "Visual Studio 各版本 Temp 目录，编译/调试中转文件",
            var: "LOCALAPPDATA",
            suffix: "Microsoft\\VisualStudio\\*\\Temp",
            risk_level: JunkRiskLevel::Caution,
            requires_admin: false,
            default_selected: true,
            clean_subdirs_only: true,
            why_safe: "Visual Studio 编译、设计器、调试过程的中转文件。不会影响你的项目源码、解决方案文件、调试设置。建议关闭 VS 后再清；如果当前 VS 正在跑构建或调试，先停下来再清，避免影响进行中的任务。",
        },
        91 => LegacyRow {
            id: "visualstudio_extensions_cache",
            category: JunkCategory::AppLogs,
            name: "Visual Studio 扩展日志",
            description: "Visual Studio 扩展安装与运行日志，仅排障保留",
            var: "LOCALAPPDATA",
            suffix: "Microsoft\\VisualStudio\\*\\Extensions\\Logs",
            risk_level: JunkRiskLevel::Caution,
            requires_admin: false,
            default_selected: false,
            clean_subdirs_only: true,
            why_safe: "Visual Studio 各扩展的安装与运行日志（不是扩展本体）。不会影响已装好的扩展。但如果你正在排查某个扩展无法加载或频繁报错，删了就丢失了证据——排障期间不要勾。",
        },
        92 => LegacyRow {
            id: "npm_cache",
            category: JunkCategory::BrowserCache,
            name: "npm 全局缓存",
            description: "npm 全局下载缓存，删除后下次构建需重新下载（企业网络敏感，请按需勾选）",
            var: "APPDATA",
            suffix: "npm-cache",
            risk_level: JunkRiskLevel::Risky,
            requires_admin: false,
            default_selected: false,
            clean_subdirs_only: false,
            why_safe: "npm 历史下载过的包的本地副本，给 `npm install` 加速用。不会影响 node_modules（在项目里）或全局安装的 CLI 工具。删了下次 npm install 会全部从源重新下载，公司网络受限或带宽差时单个大项目要等十几分钟，所以默认不勾。",
        },
        93 => LegacyRow {
            id: "pnpm_cache",
            category: JunkCategory::BrowserCache,
            name: "pnpm 元数据缓存",
            description: "pnpm 的 HTTP 元数据缓存（非 store），删除后下次安装会重新拉元数据",
            var: "LOCALAPPDATA",
            suffix: "pnpm-cache",
            risk_level: JunkRiskLevel::Risky,
            requires_admin: false,
            default_selected: false,
            clean_subdirs_only: false,
            why_safe: "pnpm 向 registry 询问包元数据时的 HTTP 响应缓存（不是 pnpm 的 content-addressable store，那个在 pnpm\\store 别处）。删了下次 pnpm install 重新拉元数据，速度受网络影响——所以默认不勾。不会影响已安装项目的 node_modules 软链接。",
        },
        94 => LegacyRow {
            id: "yarn_cache",
            category: JunkCategory::BrowserCache,
            name: "Yarn 缓存",
            description: "Yarn 全局下载缓存，删除后下次构建需重新下载（企业网络敏感）",
            var: "LOCALAPPDATA",
            suffix: "Yarn\\Cache",
            risk_level: JunkRiskLevel::Risky,
            requires_admin: false,
            default_selected: false,
            clean_subdirs_only: false,
            why_safe: "Yarn 把下载过的 npm 包按版本保存的本地副本。不会影响 node_modules（在项目里）或 yarn.lock。删了下次 yarn install 要全部从源重新下，公司网络环境慢时大项目要等十几分钟，所以默认不勾。",
        },
        95 => LegacyRow {
            id: "pip_cache",
            category: JunkCategory::BrowserCache,
            name: "pip wheel 缓存",
            description: "pip 已下载 wheel 缓存，删除后下次 pip install 需重新下载（企业网络敏感）",
            var: "LOCALAPPDATA",
            suffix: "pip\\Cache",
            risk_level: JunkRiskLevel::Risky,
            requires_admin: false,
            default_selected: false,
            clean_subdirs_only: false,
            why_safe: "pip 历史下载过的 wheel 文件副本。不会影响已经装好的 Python 包（在 site-packages）或虚拟环境。删了下次创建新环境或装新包时要从 PyPI 重新下载，包含大依赖（torch、numpy）时尤其慢——所以默认不勾。",
        },
        96 => LegacyRow {
            id: "conda_pkgs_cache",
            category: JunkCategory::BrowserCache,
            name: "Conda 包缓存",
            description: "Conda 已下载包缓存，删除后再创建环境需重新下载（企业网络敏感）",
            var: "USERPROFILE",
            suffix: ".conda\\pkgs",
            risk_level: JunkRiskLevel::Risky,
            requires_admin: false,
            default_selected: false,
            clean_subdirs_only: false,
            why_safe: "Conda 历史下载过的包副本，给新建 env 时复用。不会影响已经创建好的 conda 环境（在 envs/ 下），那些还能正常用。删了下次创建新 env 要从 channels 重新下载，包含 cudatoolkit 等大依赖时单次几个 GB——所以默认不勾。",
        },
        97 => LegacyRow {
            id: "cargo_registry_cache",
            category: JunkCategory::BrowserCache,
            name: "Cargo 注册表缓存",
            description: "Cargo 注册表 .crate 包缓存（不动 src/index）",
            var: "USERPROFILE",
            suffix: ".cargo\\registry\\cache",
            risk_level: JunkRiskLevel::Risky,
            requires_admin: false,
            default_selected: false,
            clean_subdirs_only: false,
            why_safe: "Cargo 历史从 crates.io 下载过的 .crate 包副本。不会动 registry\\src（解压源码，cargo build 会用）也不会动 registry\\index（包索引）。删了下次构建若需要重新解压，会从源重拉 .crate——网络受限时建议不勾。",
        },
        98 => LegacyRow {
            id: "gradle_daemon_logs",
            category: JunkCategory::AppLogs,
            name: "Gradle 守护进程日志",
            description: "Gradle daemon 输出日志，仅排障保留（不会动 Gradle caches）",
            var: "USERPROFILE",
            suffix: ".gradle\\daemon",
            risk_level: JunkRiskLevel::Caution,
            requires_admin: false,
            default_selected: false,
            clean_subdirs_only: true,
            why_safe: "Gradle daemon 后台构建进程的输出日志，仅匹配 *.log 不动 daemon 进程自身。不会动 ~/.gradle/caches（构建缓存）或 wrapper（版本管理）。但如果当前正在排查构建挂死、OOM，这里是关键证据，排障期间不要勾。",
        },
        99 => LegacyRow {
            id: "nuget_v3_cache",
            category: JunkCategory::BrowserCache,
            name: "NuGet v3 元数据缓存",
            description: "NuGet v3-cache 元数据缓存，删除后会自动重建",
            var: "LOCALAPPDATA",
            suffix: "NuGet\\v3-cache",
            risk_level: JunkRiskLevel::Risky,
            requires_admin: false,
            default_selected: false,
            clean_subdirs_only: false,
            why_safe: "NuGet 向源服务器询问包元数据（版本号、依赖图）的 HTTP 响应缓存，不是包本体。不会影响项目里 packages 或全局 packages 文件夹。删了下次 nuget restore 时重新拉元数据，速度受网络影响——所以默认不勾。",
        },
        100 => LegacyRow {
            id: "nuget_http_cache",
            category: JunkCategory::BrowserCache,
            name: "NuGet HTTP 包缓存",
            description: "NuGet HTTP 包缓存，删除后下次还原需重新下载（企业网络敏感）",
            var: "LOCALAPPDATA",
            suffix: "NuGet\\Cache",
            risk_level: JunkRiskLevel::Risky,
            requires_admin: false,
            default_selected: false,
            clean_subdirs_only: false,
            why_safe: "NuGet 历史下载过的包文件副本。不会影响 .NET 项目里 packages 文件夹的已还原依赖。删了下次 nuget restore 要从源重新下，公司私有源带宽小或大型解决方案时较慢——所以默认不勾。",
        },
        101 => LegacyRow {
            id: "office_document_cache",
            category: JunkCategory::BrowserCache,
            name: "Office 文档缓存",
            description: "Office 文档缓存，极少数情况下含未上传修改，确认无遗漏后再删",
            var: "LOCALAPPDATA",
            suffix: "Microsoft\\Office\\*\\OfficeFileCache",
            risk_level: JunkRiskLevel::Caution,
            requires_admin: false,
            default_selected: false,
            clean_subdirs_only: false,
            why_safe: "Office 上传中心（Upload Center）暂存的 OneDrive/SharePoint 文档副本。极少数情况下，如果你刚改完文档但还没传上云，本地修改就在这里——删了等于丢未上传的修改，所以默认不勾。建议确认上传中心无待传文件再勾。",
        },
        102 => LegacyRow {
            id: "onedrive_setup_logs",
            category: JunkCategory::AppLogs,
            name: "OneDrive 安装日志",
            description: "OneDrive 安装与升级日志，仅排障保留（不动 OneDrive 同步文件）",
            var: "LOCALAPPDATA",
            suffix: "Microsoft\\OneDrive\\setup\\logs",
            risk_level: JunkRiskLevel::Caution,
            requires_admin: false,
            default_selected: false,
            clean_subdirs_only: true,
            why_safe: "OneDrive 客户端安装、升级、卸载过程的诊断日志。绝不会动 OneDrive 同步文件夹里的文档、照片。但如果你 OneDrive 正卡在升级、登录失败、同步异常，这里是微软支持要的第一手证据——排障期间不要勾。",
        },
        103 => LegacyRow {
            id: "adobe_common_media_cache_files",
            category: JunkCategory::SystemTemp,
            name: "Adobe Premiere Media Cache",
            description: "Adobe Premiere/After Effects 媒体峰值与索引文件",
            var: "APPDATA",
            suffix: "Adobe\\Common\\Media Cache Files",
            risk_level: JunkRiskLevel::Safe,
            requires_admin: false,
            default_selected: true,
            clean_subdirs_only: false,
            why_safe: "Premiere/After Effects 给视频、音频素材生成的音频峰值（波形）和索引副本，用于加速预览。不会动你的工程文件（.prproj/.aep）或原始素材。下次在 Pr/Ae 打开素材会重新生成索引——长素材重新生成要等几分钟，但仅一次。",
        },
        104 => LegacyRow {
            id: "adobe_common_media_cache",
            category: JunkCategory::SystemTemp,
            name: "Adobe 媒体缓存数据库",
            description: "Adobe 媒体缓存数据库",
            var: "APPDATA",
            suffix: "Adobe\\Common\\Media Cache",
            risk_level: JunkRiskLevel::Safe,
            requires_admin: false,
            default_selected: true,
            clean_subdirs_only: false,
            why_safe: "Adobe 媒体缓存的数据库索引，记录哪些素材生成过缓存。不会动工程文件或原始素材。删了下次打开工程时 Adobe 会重新建索引——大型工程要等几分钟，但仅一次。常和 Media Cache Files 一起清，工程打开会快很多。",
        },
        105 => LegacyRow {
            id: "adobe_common_peak_files",
            category: JunkCategory::SystemTemp,
            name: "Adobe 音频峰值缓存",
            description: "Adobe Peak Files 音频峰值缓存",
            var: "APPDATA",
            suffix: "Adobe\\Common\\Peak Files",
            risk_level: JunkRiskLevel::Safe,
            requires_admin: false,
            default_selected: true,
            clean_subdirs_only: false,
            why_safe: "Adobe Audition / Premiere 给音频素材生成的波形可视化缓存。不会动工程文件或原始音频。删了下次在 Au/Pr 打开音频文件会重新算波形——长音频几秒到几十秒，但仅一次。",
        },
        106 => LegacyRow {
            id: "adobe_bridge_cache",
            category: JunkCategory::ThumbnailCache,
            name: "Adobe Bridge 缩略图缓存",
            description: "Adobe Bridge 缩略图与预览缓存",
            var: "APPDATA",
            suffix: "Adobe\\Bridge*\\Cache",
            risk_level: JunkRiskLevel::Safe,
            requires_admin: false,
            default_selected: true,
            clean_subdirs_only: false,
            why_safe: "Adobe Bridge 浏览图片/视频时生成的缩略图和预览图。不会动你的原始素材或元数据（XMP）。删了下次在 Bridge 浏览文件夹时会重新生成——千张图的目录要等十几秒，但仅一次，之后照常。",
        },
        107 => LegacyRow {
            id: "adobe_camera_raw_cache",
            category: JunkCategory::ThumbnailCache,
            name: "Adobe Camera Raw 预览缓存",
            description: "Adobe Camera Raw 预览缓存",
            var: "LOCALAPPDATA",
            suffix: "Adobe\\Camera Raw\\Cache",
            risk_level: JunkRiskLevel::Safe,
            requires_admin: false,
            default_selected: true,
            clean_subdirs_only: false,
            why_safe: "Camera Raw 给 RAW 文件生成的预览图缓存，加速翻阅。不会动 RAW 原片或 .xmp 调色侧文件（你的调色参数都在那里）。删了下次在 Camera Raw 打开 RAW 会重新解码生成预览，单张 1-2 秒，仅一次。",
        },
        108 => LegacyRow {
            id: "d3d_shader_cache",
            category: JunkCategory::ThumbnailCache,
            name: "DirectX 着色器缓存",
            description: "DirectX D3DSCache 着色器缓存，删除后游戏首次启动会卡几秒重建",
            var: "LOCALAPPDATA",
            suffix: "D3DSCache",
            risk_level: JunkRiskLevel::Safe,
            requires_admin: false,
            default_selected: true,
            clean_subdirs_only: false,
            why_safe: "Windows 给 DirectX 程序（多数 3D 游戏、显卡加速应用）编译的着色器副本。不会影响游戏存档、设置、Mod。删了下次启动相关游戏时第一次进图会卡 5-10 秒重新编译着色器，仅一次。",
        },
        109 => LegacyRow {
            id: "nvidia_dx_cache",
            category: JunkCategory::ThumbnailCache,
            name: "NVIDIA DirectX 着色器缓存",
            description: "NVIDIA DXCache，DirectX 着色器缓存，删除后会自动重建",
            var: "LOCALAPPDATA",
            suffix: "NVIDIA\\DXCache",
            risk_level: JunkRiskLevel::Safe,
            requires_admin: false,
            default_selected: true,
            clean_subdirs_only: false,
            why_safe: "NVIDIA 驱动给 DirectX 游戏编译的 GPU 着色器副本。不会影响游戏存档、设置或 GeForce Experience 配置。驱动升级后这里很容易堆积过时的缓存，删了下次进游戏时第一关卡几秒重建，之后照常。",
        },
        110 => LegacyRow {
            id: "nvidia_gl_cache",
            category: JunkCategory::ThumbnailCache,
            name: "NVIDIA OpenGL 着色器缓存",
            description: "NVIDIA GLCache，OpenGL 着色器缓存，删除后会自动重建",
            var: "LOCALAPPDATA",
            suffix: "NVIDIA\\GLCache",
            risk_level: JunkRiskLevel::Safe,
            requires_admin: false,
            default_selected: true,
            clean_subdirs_only: false,
            why_safe: "NVIDIA 驱动给 OpenGL 程序（部分老游戏、Blender、3D 建模软件）编译的着色器副本。不会影响游戏存档、3D 建模工程文件。删了下次启动 OpenGL 程序时第一次渲染会卡几秒重建，仅一次。",
        },
        111 => LegacyRow {
            id: "nvidia_compute_cache",
            category: JunkCategory::ThumbnailCache,
            name: "NVIDIA 计算着色器缓存",
            description: "NVIDIA ComputeCache，CUDA/计算着色器缓存，删除后会自动重建",
            var: "LOCALAPPDATA",
            suffix: "NVIDIA\\ComputeCache",
            risk_level: JunkRiskLevel::Safe,
            requires_admin: false,
            default_selected: true,
            clean_subdirs_only: false,
            why_safe: "NVIDIA 驱动给 CUDA 程序（深度学习、视频渲染、科学计算）编译的 PTX 二进制缓存。不会动你的模型权重、数据集、Python 包。删了下次跑 PyTorch/TensorFlow 等程序时第一次启动会多几秒 JIT 编译，仅一次。",
        },
        112 => LegacyRow {
            id: "amd_dx_cache",
            category: JunkCategory::ThumbnailCache,
            name: "AMD DirectX 着色器缓存",
            description: "AMD DxCache，DirectX 着色器缓存，删除后会自动重建",
            var: "LOCALAPPDATA",
            suffix: "AMD\\DxCache",
            risk_level: JunkRiskLevel::Safe,
            requires_admin: false,
            default_selected: true,
            clean_subdirs_only: false,
            why_safe: "AMD 显卡驱动给 DirectX 游戏编译的着色器副本。不会影响游戏存档、Radeon 软件配置、显示器配置。驱动升级后旧缓存就过期了，删了下次进游戏第一次场景加载卡几秒重建，仅一次。",
        },
        113 => LegacyRow {
            id: "amd_gl_cache",
            category: JunkCategory::ThumbnailCache,
            name: "AMD OpenGL 着色器缓存",
            description: "AMD GLCache，OpenGL 着色器缓存，删除后会自动重建",
            var: "LOCALAPPDATA",
            suffix: "AMD\\GLCache",
            risk_level: JunkRiskLevel::Safe,
            requires_admin: false,
            default_selected: true,
            clean_subdirs_only: false,
            why_safe: "AMD 显卡驱动给 OpenGL 程序编译的着色器副本。不会动 Blender、CAD 等 3D 软件的工程文件。删了下次启动 OpenGL 应用时第一次渲染卡几秒重建，仅一次。",
        },
        114 => LegacyRow {
            id: "steam_html_cache",
            category: JunkCategory::BrowserCache,
            name: "Steam 商店 webview 缓存",
            description: "Steam 客户端商店 webview 缓存",
            var: "LOCALAPPDATA",
            suffix: "Steam\\htmlcache",
            risk_level: JunkRiskLevel::Safe,
            requires_admin: false,
            default_selected: true,
            clean_subdirs_only: false,
            why_safe: "Steam 客户端内嵌商店页（Chromium webview）的图片、JS、CSS 副本。不会动你的游戏库、存档、好友列表、登录态。删了下次打开商店页会重新加载，慢一两秒，之后照常。Steam 商店卡白屏时官方建议就是删这个目录。",
        },
        115 => LegacyRow {
            id: "epic_webcache",
            category: JunkCategory::BrowserCache,
            name: "Epic Games Launcher webview 缓存",
            description: "Epic Games Launcher webview 缓存",
            var: "LOCALAPPDATA",
            suffix: "EpicGamesLauncher\\Saved\\webcache",
            risk_level: JunkRiskLevel::Safe,
            requires_admin: false,
            default_selected: true,
            clean_subdirs_only: false,
            why_safe: "Epic Games Launcher 内嵌商店、库页（Chromium webview）的资源副本。不会动你已下载的游戏、存档、登录态、好友列表。Epic 启动器卡白屏或商店打不开时，官方支持第一步就是删这个目录。删了下次打开重新加载，慢两秒。",
        },
        116 => LegacyRow {
            id: "epic_logs",
            category: JunkCategory::AppLogs,
            name: "Epic Games Launcher 日志",
            description: "Epic Games Launcher 客户端日志，仅排障保留",
            var: "LOCALAPPDATA",
            suffix: "EpicGamesLauncher\\Saved\\Logs",
            risk_level: JunkRiskLevel::Caution,
            requires_admin: false,
            default_selected: false,
            clean_subdirs_only: true,
            why_safe: "Epic 启动器运行日志。不会动你的游戏、存档、登录态。但 Epic 启动器卡死、游戏装不上、下载断流时这里是官方支持要的日志——排障期间不要勾。日常体积通常几十 MB。",
        },
        117 => LegacyRow {
            id: "battlenet_cache",
            category: JunkCategory::BrowserCache,
            name: "战网客户端 webview 缓存",
            description: "Battle.net 客户端 webview 缓存",
            var: "APPDATA",
            suffix: "Battle.net\\Cache",
            risk_level: JunkRiskLevel::Safe,
            requires_admin: false,
            default_selected: true,
            clean_subdirs_only: false,
            why_safe: "战网客户端内嵌商店、新闻页（Chromium webview）的资源副本。不会动你已装的暴雪游戏、存档、登录态、好友列表。战网客户端卡白屏、新闻栏不刷新时官方建议删这个——下次打开重新拉，慢一两秒。",
        },
        118 => LegacyRow {
            id: "battlenet_logs",
            category: JunkCategory::AppLogs,
            name: "战网客户端日志",
            description: "Battle.net 客户端日志（位于 ProgramData），仅排障保留",
            var: "PROGRAMDATA",
            suffix: "Battle.net\\Logs",
            risk_level: JunkRiskLevel::Caution,
            requires_admin: false,
            default_selected: false,
            clean_subdirs_only: true,
            why_safe: "战网客户端运行日志，位于 ProgramData（系统级共享路径）。不会动游戏本体、存档、登录态。但暴雪客服在你报错时第一件事就是要这个日志——游戏装不上、下载断、登录循环失败的排障期间不要勾。",
        },
        119 => LegacyRow {
            id: "riot_logs",
            category: JunkCategory::AppLogs,
            name: "Riot 客户端日志",
            description: "Riot Client 日志（League of Legends/VALORANT 等），仅排障保留",
            var: "LOCALAPPDATA",
            suffix: "Riot Games\\Riot Client\\Logs",
            risk_level: JunkRiskLevel::Caution,
            requires_admin: false,
            default_selected: false,
            clean_subdirs_only: true,
            why_safe: "英雄联盟、VALORANT 等拳头游戏客户端的运行日志。不会动游戏本体、账号、好友、对战配置。但客户端打不开、自更新卡死、反作弊（Vanguard）报错时这里是技术支持要的——排障期间不要勾。",
        },
        120 => LegacyRow {
            id: "ea_app_cache",
            category: JunkCategory::BrowserCache,
            name: "EA 桌面客户端 webview 缓存",
            description: "EA Desktop 客户端 webview 缓存",
            var: "LOCALAPPDATA",
            suffix: "Electronic Arts\\EA Desktop\\Cache",
            risk_level: JunkRiskLevel::Safe,
            requires_admin: false,
            default_selected: true,
            clean_subdirs_only: false,
            why_safe: "EA 桌面客户端商店与库页（Chromium webview）的资源副本。不会动 EA 游戏本体、存档、登录态、好友列表。EA 客户端商店卡白屏或库界面打不开时 EA 支持文档建议清这个——下次打开重新拉，慢一两秒。",
        },
        121 => LegacyRow {
            id: "ea_app_logs",
            category: JunkCategory::AppLogs,
            name: "EA 桌面客户端日志",
            description: "EA Desktop 客户端日志，仅排障保留",
            var: "LOCALAPPDATA",
            suffix: "Electronic Arts\\EA Desktop\\Logs",
            risk_level: JunkRiskLevel::Caution,
            requires_admin: false,
            default_selected: false,
            clean_subdirs_only: true,
            why_safe: "EA 桌面客户端运行日志。不会动 EA 游戏本体或存档。但游戏装不上、客户端反复登录失败、下载卡住时这里是 EA Help 客服要的证据——排障期间不要勾。",
        },
        122 => LegacyRow {
            id: "zoom_cache",
            category: JunkCategory::BrowserCache,
            name: "Zoom 客户端缓存",
            description: "Zoom 客户端 data\\cache 网络缓存",
            var: "APPDATA",
            suffix: "Zoom\\data\\cache",
            risk_level: JunkRiskLevel::Safe,
            requires_admin: false,
            default_selected: true,
            clean_subdirs_only: false,
            why_safe: "Zoom 客户端的网络资源缓存（联系人头像、聊天表情、入会页资源等）。不会动你的会议历史、会议录制、聊天记录（在 Documents\\Zoom 别处）、登录态。删了下次进会议时图片素材稍慢加载，无感。",
        },
        123 => LegacyRow {
            id: "zoom_logs",
            category: JunkCategory::AppLogs,
            name: "Zoom 客户端日志",
            description: "Zoom 客户端日志，仅排障保留",
            var: "APPDATA",
            suffix: "Zoom\\logs",
            risk_level: JunkRiskLevel::Caution,
            requires_admin: false,
            default_selected: false,
            clean_subdirs_only: true,
            why_safe: "Zoom 客户端运行日志，记录加会、音视频协商、网络状况。不会动会议录制文件或聊天记录。但会议进不去、麦克风/摄像头识别失败、音画不同步时 Zoom 支持要这里的日志——排障期间不要勾。",
        },
        124 => LegacyRow {
            id: "spotify_storage",
            category: JunkCategory::BrowserCache,
            name: "Spotify 离线缓存",
            description: "Spotify Storage 离线缓存（含用户已下载的离线歌曲）",
            var: "LOCALAPPDATA",
            suffix: "Spotify\\Storage",
            risk_level: JunkRiskLevel::Caution,
            requires_admin: false,
            default_selected: false,
            clean_subdirs_only: false,
            why_safe: "Spotify 已缓存或用户主动下载的离线歌曲（Premium 用户）。删了所有标记为可离线播放的歌单/播客会消失，下次播放需要联网重新流式或重新点下载。不会丢登录态、播放列表、收藏，但出门没网会尴尬——所以默认不勾。",
        },
        125 => LegacyRow {
            id: "spotify_browser_cache",
            category: JunkCategory::BrowserCache,
            name: "Spotify 内嵌浏览器缓存",
            description: "Spotify 客户端内嵌 Chromium 的 Browser 子目录缓存",
            var: "LOCALAPPDATA",
            suffix: "Spotify\\Browser",
            risk_level: JunkRiskLevel::Safe,
            requires_admin: false,
            default_selected: true,
            clean_subdirs_only: false,
            why_safe: "Spotify 客户端内嵌 Chromium webview 的资源缓存（封面、播客封图、商店页素材）。不会动你的离线歌曲、登录态、播放列表、收藏、播放记录。删了下次打开 Spotify 客户端时素材慢一两秒重新加载，之后无感。",
        },
        _ => LegacyRow {
            id: "spotify_gpu_cache",
            category: JunkCategory::BrowserCache,
            name: "Spotify GPU 缓存",
            description: "Spotify 客户端 GPU 着色器缓存",
            var: "LOCALAPPDATA",
            suffix: "Spotify\\GPUCache",
            risk_level: JunkRiskLevel::Safe,
            requires_admin: false,
            default_selected: true,
            clean_subdirs_only: false,
            why_safe: "Spotify 客户端 GPU 着色器副本，给 UI 渲染加速用。不会动音乐、播放列表、登录态、离线下载。删了下次启动 Spotify 时第一次绘制界面慢一瞬，无感。",
        },
    }
}

/// The file-name patterns of built-in rule `i` (empty: the whole
/// directory).
pub open spec fn legacy_pattern_texts(i: int) -> Seq<Seq<char>> {
    if i == 3 {
        seq!["*.pf"@]
    } else if i == 8 {
        seq!["setupapi.app.log"@, "setupapi.dev.log"@, "setupapi.*.log"@]
    } else if i == 9 {
        seq!["thumbcache_*.db"@, "iconcache_*.db"@]
    } else if i == 16 {
        seq!["*.dmp"@]
    } else if i == 19 {
        seq!["*.log"@, "*.cab"@]
    } else if i == 20 {
        seq!["*.log"@]
    } else if i == 98 {
        seq!["*.out.log"@, "*.log"@]
    } else {
        Seq::empty()
    }
}

/// The file-name patterns of built-in rule `i` (see
/// [`legacy_pattern_texts`]).
pub fn legacy_patterns(i: usize) -> (r: Vec<String>)
    requires
        i < LEGACY_RULE_COUNT,
    ensures
        texts(r@) == legacy_pattern_texts(i as int),
{
    let mut v: Vec<String> = Vec::new();
    match i {
        3 => {
            v.push(owned("*.pf"));
        },
        8 => {
            v.push(owned("setupapi.app.log"));
            v.push(owned("setupapi.dev.log"));
            v.push(owned("setupapi.*.log"));
        },
        9 => {
            v.push(owned("thumbcache_*.db"));
            v.push(owned("iconcache_*.db"));
        },
        16 => {
            v.push(owned("*.dmp"));
        },
        19 => {
            v.push(owned("*.log"));
            v.push(owned("*.cab"));
        },
        20 => {
            v.push(owned("*.log"));
        },
        98 => {
            v.push(owned("*.out.log"));
            v.push(owned("*.log"));
        },
        _ => {},
    }
    assert(texts(v@) =~= legacy_pattern_texts(i as int));
    v
}

/// The paths of built-in rule `i`: the recycle bin's fixed path, else the
/// path its variable gives, if any.
pub open spec fn row_paths(env: Seq<(String, String)>, i: int) -> Seq<Seq<char>> {
    if i == RECYCLE_BIN_ROW {
        seq![RECYCLE_BIN_PATH@]
    } else {
        match env_path_spec(env, legacy_var(i), legacy_suffix(i)) {
            Some(p) => seq![p],
            None => Seq::empty(),
        }
    }
}

/// The built-in rules among the first `n` that have a path, in order.
pub open spec fn kept_rows(env: Seq<(String, String)>, n: int) -> Seq<int>
    decreases n,
{
    if n <= 0 {
        Seq::empty()
    } else if row_paths(env, n - 1).len() > 0 {
        kept_rows(env, n - 1).push(n - 1)
    } else {
        kept_rows(env, n - 1)
    }
}

/// A rule built from built-in row `i`.
pub open spec fn rule_from_row(r: JunkRule, env: Seq<(String, String)>, i: int) -> bool {
    &&& r.id@ == legacy_id(i)
    &&& texts(r.paths@) == row_paths(env, i)
    &&& texts(r.patterns@) == legacy_pattern_texts(i)
    &&& r.category == legacy_category(i)
    &&& r.risk_level == legacy_risk(i)
    &&& r.requires_admin == legacy_needs_admin(i)
    &&& r.default_selected == legacy_selected(i)
    &&& r.clean_subdirs_only == legacy_subdirs_only(i)
    &&& r.max_depth is None
}

fn rule_of_row(env: &Vec<(String, String)>, i: usize) -> (r: Option<JunkRule>)
    requires
        i < LEGACY_RULE_COUNT,
    ensures
        r is Some == (row_paths(env@, i as int).len() > 0),
        r matches Some(rule) ==> rule_from_row(rule, env@, i as int),
{
    let row = legacy_row(i);
    let mut paths: Vec<String> = Vec::new();
    if i == RECYCLE_BIN_ROW {
        paths.push(owned(RECYCLE_BIN_PATH));
    } else {
        match env_path(env, row.var, row.suffix) {
            Some(p) => paths.push(p),
            None => {},
        }
    }
    assert(texts(paths@) =~= row_paths(env@, i as int));
    if paths.len() == 0 {
        return None;
    }
    let why = owned(row.why_safe);
    Some(JunkRule {
        id: owned(row.id),
        category: row.category,
        name: owned(row.name),
        description: owned(row.description),
        paths,
        patterns: legacy_patterns(i),
        risk_level: row.risk_level,
        requires_admin: row.requires_admin,
        default_selected: row.default_selected,
        clean_subdirs_only: row.clean_subdirs_only,
        max_depth: None,
        why_safe: Some(why),
    })
}

/// The built-in rules that have a path under `env`, in table order (see
/// [`kept_rows`]).
pub fn legacy_rules(env: &Vec<(String, String)>) -> (r: Vec<JunkRule>)
    ensures
        r@.len() == kept_rows(env@, LEGACY_RULE_COUNT as int).len(),
        forall|k: int| 0 <= k < r@.len() ==> #[trigger] rule_from_row(r@[k], env@, kept_rows(env@, LEGACY_RULE_COUNT as int)[k]),
{
    let mut out: Vec<JunkRule> = Vec::new();
    let mut i: usize = 0;
    while i < LEGACY_RULE_COUNT
        invariant
            i <= LEGACY_RULE_COUNT,
            out@.len() == kept_rows(env@, i as int).len(),
            forall|k: int| 0 <= k < out@.len() ==> #[trigger] rule_from_row(out@[k], env@, kept_rows(env@, i as int)[k]),
        decreases LEGACY_RULE_COUNT - i,
    {
        match rule_of_row(env, i) {
            Some(rule) => {
                out.push(rule);
            },
            None => {},
        }
        i = i + 1;
    }
    out
}

/// Every built-in rule kept has at least one path, and the recycle bin
/// rule is always kept.
pub proof fn law_kept_rows_have_paths(env: Seq<(String, String)>, n: int)
    requires
        RECYCLE_BIN_ROW < n,
    ensures
        forall|k: int| 0 <= k < kept_rows(env, n).len() ==> row_paths(env, #[trigger] kept_rows(env, n)[k]).len() > 0,
        kept_rows(env, n).contains(RECYCLE_BIN_ROW as int),
    decreases n,
{
    lemma_kept_rows_have_paths(env, n);
    if n - 1 == RECYCLE_BIN_ROW {
        assert(kept_rows(env, n).last() == RECYCLE_BIN_ROW);
    } else {
        law_kept_rows_have_paths(env, n - 1);
        let k = choose|k: int| 0 <= k < kept_rows(env, n - 1).len() && #[trigger] kept_rows(env, n - 1)[k] == RECYCLE_BIN_ROW;
        assert(kept_rows(env, n)[k] == RECYCLE_BIN_ROW);
    }
}

proof fn lemma_kept_rows_have_paths(env: Seq<(String, String)>, n: int)
    ensures
        forall|k: int| 0 <= k < kept_rows(env, n).len() ==> row_paths(env, #[trigger] kept_rows(env, n)[k]).len() > 0,
    decreases n,
{
    if n > 0 {
        lemma_kept_rows_have_paths(env, n - 1);
        let prev = kept_rows(env, n - 1);
        assert forall|k: int| 0 <= k < kept_rows(env, n).len() implies row_paths(env, #[trigger] kept_rows(env, n)[k]).len() > 0 by {
            if k < prev.len() {
                assert(kept_rows(env, n)[k] == prev[k]);
            }
        }
    }
}

/// The ids of a list of rules.
pub open spec fn rule_ids(rules: Seq<JunkRule>) -> Seq<Seq<char>> {
    Seq::new(rules.len(), |i: int| rules[i].id@)
}

/// The rule is built from one of the given built-in rows.
pub open spec fn from_some_row(r: JunkRule, env: Seq<(String, String)>, rows: Seq<int>) -> bool {
    exists|j: int| 0 <= j < rows.len() && #[trigger] rule_from_row(r, env, rows[j])
}

/// The rules loaded from configuration first, then each built-in rule whose
/// id none of them has.
pub fn all_rules(env: &Vec<(String, String)>, loaded: Vec<JunkRule>) -> (r: Vec<JunkRule>)
    ensures
        r@.len() >= loaded@.len(),
        r@.take(loaded@.len() as int) == loaded@,
        forall|k: int| loaded@.len() <= k < r@.len() ==> !rule_ids(loaded@).contains(#[trigger] r@[k].id@),
        ({
            let kept = kept_rows(env@, LEGACY_RULE_COUNT as int);
            &&& forall|k: int| loaded@.len() <= k < r@.len() ==> from_some_row(#[trigger] r@[k], env@, kept)
            &&& forall|j: int| 0 <= j < kept.len() && !rule_ids(loaded@).contains(legacy_id(#[trigger] kept[j])) ==> exists|k: int|
                loaded@.len() <= k < r@.len() && rule_from_row(r@[k], env@, kept[j])
        }),
{
    let ghost lv = loaded@;
    let ghost kept = kept_rows(env@, LEGACY_RULE_COUNT as int);
    let mut rules = loaded;
    let n0 = rules.len();
    let mut legacy = legacy_rules(env);
    let ghost legacy0 = legacy@;
    assert(legacy0.len() == legacy.len());
    let mut taken: usize = 0;
    while legacy.len() > 0
        invariant
            n0 == lv.len(),
            rules@.len() >= n0,
            rules@.take(n0 as int) == lv,
            legacy0.len() == kept.len(),
            legacy0.len() <= usize::MAX,
            taken + legacy@.len() == legacy0.len(),
            forall|q: int| 0 <= q < legacy@.len() ==> #[trigger] legacy@[q] == legacy0[taken + q],
            forall|q: int| 0 <= q < legacy0.len() ==> #[trigger] rule_from_row(legacy0[q], env@, kept[q]),
            forall|k: int| n0 <= k < rules@.len() ==> !rule_ids(lv).contains(#[trigger] rules@[k].id@),
            forall|k: int| n0 <= k < rules@.len() ==> from_some_row(#[trigger] rules@[k], env@, kept),
            forall|j: int| 0 <= j < taken && !rule_ids(lv).contains(legacy_id(#[trigger] kept[j])) ==> exists|k: int|
                n0 <= k < rules@.len() && rule_from_row(rules@[k], env@, kept[j]),
        decreases legacy@.len(),
    {
        let ghost before = legacy@;
        let rule = legacy.remove(0);
        assert(rule == legacy0[taken as int]);
        assert(forall|q: int| 0 <= q < legacy@.len() ==> legacy@[q] == before[q + 1]);
        let mut present = false;
        let mut q: usize = 0;
        while q < n0
            invariant
                q <= n0,
                n0 == lv.len(),
                rules@.len() >= n0,
                rules@.take(n0 as int) == lv,
                present == exists|x: int| 0 <= x < q && lv[x].id@ == rule.id@,
            decreases n0 - q,
        {
            assert(rules@[q as int] == lv[q as int]);
            if str_eq(rules[q].id.as_str(), rule.id.as_str()) {
                present = true;
            }
            q = q + 1;
        }
        proof {
            if present {
                let x = choose|x: int| 0 <= x < n0 && lv[x].id@ == rule.id@;
                assert(rule_ids(lv)[x] == rule.id@);
            } else {
                assert forall|x: int| 0 <= x < rule_ids(lv).len() implies rule_ids(lv)[x] != rule.id@ by {
                    assert(rule_ids(lv)[x] == lv[x].id@);
                }
            }
        }
        let ghost rlen = rules@.len();
        let ghost rprev = rules@;
        if !present {
            rules.push(rule);
            proof {
                assert(rules@.take(n0 as int) =~= rprev.take(n0 as int));
                assert(rules@[rlen as int] == legacy0[taken as int]);
                assert(rule_from_row(rules@[rlen as int], env@, kept[taken as int]));
                assert forall|k: int| n0 <= k < rules@.len() implies from_some_row(#[trigger] rules@[k], env@, kept) by {
                    if k < rlen {
                        assert(rules@[k] == rprev[k]);
                    } else {
                        assert(rule_from_row(rules@[k], env@, kept[taken as int]));
                    }
                }
                assert forall|j: int| 0 <= j < taken + 1 && !rule_ids(lv).contains(legacy_id(#[trigger] kept[j])) implies exists|k: int|
                    n0 <= k < rules@.len() && rule_from_row(rules@[k], env@, kept[j]) by {
                    if j < taken {
                        let k = choose|k: int| n0 <= k < rprev.len() && rule_from_row(rprev[k], env@, kept[j]);
                        assert(rules@[k] == rprev[k]);
                    } else {
                        assert(rule_from_row(rules@[rlen as int], env@, kept[j]));
                    }
                }
            }
        } else {
            proof {
                assert(rule_from_row(rule, env@, kept[taken as int]));
                assert(legacy_id(kept[taken as int]) == rule.id@);
            }
        }
        taken = taken + 1;
    }
    rules
}

} // verus!
