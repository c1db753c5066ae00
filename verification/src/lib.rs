pub mod text;
pub mod path_utils;
pub mod env_fingerprint;
pub mod safety;
pub mod file_info;
pub mod tree;
pub mod incremental;
pub mod change_detect;
pub mod rename_merge;
pub mod changed_dirs;
pub mod incremental_plan;
pub mod scan_tree;
pub mod scan_attempts;
pub mod scan_index;
pub mod by_size;
pub mod clock;
pub mod smart_scan;
pub mod explain;
pub mod space_breakdown;
pub mod rules;
pub mod rule_loader;
pub mod preflight;
pub mod session;
pub mod scheduler;
pub mod app_paths;
pub mod pending_intent;
pub mod cleanup;
pub mod reclaim;
pub mod junk_scan;
pub mod disk_scanner;
pub mod duplicates;
pub mod duplicate_cascade;
pub mod forest_keys;
pub mod mft_plan;
pub mod placement;
