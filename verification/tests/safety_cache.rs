use csd_cleaner::safety::{MigrationSafety, SafetyCache, Verdict, SAFETY_CACHE_TTL_MS};

fn analysis(app: &str) -> MigrationSafety {
    MigrationSafety {
        verdict: Verdict::Safe,
        can_migrate: true,
        findings: Vec::new(),
        required_actions: Vec::new(),
        app_type: app.to_string(),
        analysis_duration_ms: 3,
        gate_durations_ms: vec![("system_critical".to_string(), 1)],
    }
}

#[test]
fn cached_analysis_is_returned_while_fresh_and_dropped_when_stale() {
    let mut cache = SafetyCache::new();
    cache.put("C:\\APP|Junction|D:|10".to_string(), analysis("game"), 1_000);
    let hit = cache.get("C:\\APP|Junction|D:|10", 1_000 + SAFETY_CACHE_TTL_MS - 1).expect("fresh");
    assert_eq!(hit.app_type, "game");
    assert_eq!(hit.gate_durations_ms, vec![("system_critical".to_string(), 1)]);
    assert!(cache.get("C:\\OTHER|Junction|D:|10", 1_000).is_none());
    assert!(cache.get("C:\\APP|Junction|D:|10", 1_000 + SAFETY_CACHE_TTL_MS).is_none());
    cache.put("C:\\APP|Junction|D:|10".to_string(), analysis("tool"), 50_000);
    assert_eq!(cache.get("C:\\APP|Junction|D:|10", 50_001).expect("fresh").app_type, "tool");
}
