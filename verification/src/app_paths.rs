//! Where the application keeps its files: the databases and the pending
//! scan intent below the application's data directory.
use vstd::prelude::*;
use crate::text::{chars_of, owned, push_char, push_str, is_sep};

verus! {

/// `name` below `base` as a Windows path joins them: nothing between them
/// when `base` is empty, ends with a separator or is a bare drive (`C:`),
/// else `\`.
pub open spec fn join_path(base: Seq<char>, name: Seq<char>) -> Seq<char> {
    if base.len() == 0 || is_sep(base.last()) || (base.len() == 2 && base[1] == ':') {
        base + name
    } else {
        base.push('\\') + name
    }
}

/// `name` below `base` (see [`join_path`]).
pub fn join(base: &str, name: &str) -> (r: String)
    ensures
        r@ == join_path(base@, name@),
{
    let v = chars_of(base);
    let mut out = owned(base);
    let n = v.len();
    if !(n == 0 || v[n - 1] == '\\' || v[n - 1] == '/' || (n == 2 && v[1] == ':')) {
        push_char(&mut out, '\\');
    }
    push_str(&mut out, name);
    out
}

/// The scan cache database in the data directory.
pub fn get_scan_cache_db_path(data_dir: &str) -> (r: String)
    ensures
        r@ == join_path(data_dir@, "scan_cache.db"@),
{
    join(data_dir, "scan_cache.db")
}

/// The migration records database in the data directory.
pub fn get_migrations_db_path(data_dir: &str) -> (r: String)
    ensures
        r@ == join_path(data_dir@, "migrations.db"@),
{
    join(data_dir, "migrations.db")
}

/// The disk space history database in the data directory.
pub fn get_space_history_db_path(data_dir: &str) -> (r: String)
    ensures
        r@ == join_path(data_dir@, "space_history.db"@),
{
    join(data_dir, "space_history.db")
}

/// The file holding a pending scan intent, in the data directory.
pub fn test_intent_path(data_dir: &str) -> (r: String)
    ensures
        r@ == join_path(data_dir@, "pending_scan.json"@),
{
    join(data_dir, "pending_scan.json")
}

} // verus!
