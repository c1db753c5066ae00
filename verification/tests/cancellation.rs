use csd_cleaner::session::{normalize_key, CancellationGuard, CancellationToken, ScanSessionTable};

#[test]
fn token_clone_shares_flag() {
    let token = CancellationToken::new();
    let child = token.child();
    assert!(!token.is_cancelled());
    assert!(!child.is_cancelled());
    child.cancel();
    assert!(token.is_cancelled());
    assert!(child.is_cancelled());
}

#[test]
fn guard_cancels_on_drop() {
    let token = CancellationToken::new();
    {
        let _guard = CancellationGuard::new(token.clone());
        assert!(!token.is_cancelled());
    }
    assert!(token.is_cancelled());
}

#[test]
fn guard_disarm_skips_drop_cancel() {
    let token = CancellationToken::new();
    {
        let mut guard = CancellationGuard::new(token.clone());
        guard.disarm();
    }
    assert!(!token.is_cancelled());
}

#[test]
fn session_keys_fold_case_and_separators_but_keep_the_root() {
    assert_eq!(normalize_key(" C:/Data\\\\ "), r"c:\data");
    assert_eq!(normalize_key(r"C:\"), r"c:\");
    assert_eq!(normalize_key(r"C:\\\"), r"c:\");
}

#[test]
fn a_new_session_replaces_the_old_one_and_only_its_token_unregisters() {
    let mut table: ScanSessionTable<u32> = ScanSessionTable::new();
    let (key, first) = table.register("C:/", 1);
    assert_eq!(key, "c:\\");
    let (existing, payload) = table.take_existing("c:\\").map(|(t, p)| (t, *p)).unwrap();
    assert!(existing.is_cancelled());
    assert_eq!(payload, 1);
    assert!(first.is_cancelled());
    let (_, second) = table.register("c:\\", 2);
    assert_eq!(table.len(), 1);
    table.unregister_if_matches("C:\\", &first);
    assert_eq!(table.len(), 1);
    table.cancel("C:");
    assert!(!second.is_cancelled());
    table.cancel_all();
    assert!(second.is_cancelled());
    table.unregister_if_matches("C:\\", &second);
    assert_eq!(table.len(), 0);
    assert!(table.take_existing("C:\\").is_none());
}
