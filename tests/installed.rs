use nvm_core::installed::{
    cache_is_fresh, installed_cache_action, installed_versions, refresh_installed_cache, CacheAction,
    DirEntryInfo,
};

fn entry(name: &str, is_dir: bool) -> DirEntryInfo {
    DirEntryInfo { name: name.to_string(), is_dir }
}

#[test]
fn test_get_installed_versions_empty() {
    let versions = installed_versions(vec![]);
    assert_eq!(versions.len(), 0);
}

#[test]
fn scan_keeps_version_directories_newest_first() {
    let entries = vec![
        entry("v9.0.0", true),
        entry("current", true),
        entry("v18.0.0", true),
        entry("v18.10.0", true),
        entry("v20.0.0", false),
        entry("vnext", true),
        entry("18.0.0", true),
    ];
    assert_eq!(installed_versions(entries), vec!["v18.10.0", "v18.0.0", "v9.0.0"]);
}

#[test]
fn cache_reflects_refresh_immediately() {
    let before = vec![entry("v18.0.0", true)];
    let cache = refresh_installed_cache(before);
    assert_eq!(cache, vec!["v18.0.0"]);
    let after = vec![entry("v18.0.0", true), entry("v20.0.0", true)];
    let cache = refresh_installed_cache(after);
    assert_eq!(installed_cache_action(Some(0), 5), CacheAction::UseCache);
    assert_eq!(cache, vec!["v20.0.0", "v18.0.0"]);
}

#[test]
fn cache_freshness() {
    assert!(cache_is_fresh(299, 5));
    assert!(!cache_is_fresh(300, 5));
    assert!(!cache_is_fresh(0, 0));
    assert!(cache_is_fresh(u64::MAX - 1, u64::MAX));
    assert_eq!(installed_cache_action(None, 5), CacheAction::Rescan);
    assert_eq!(installed_cache_action(Some(600), 5), CacheAction::Rescan);
    assert_eq!(installed_cache_action(Some(60), 5), CacheAction::UseCache);
}
