use sdkcore::hook_cache::{session_fingerprint, HookCache, HookEntry, CACHE_SCHEMA_VERSION};
use sdkcore::size_cache::{SizeCache, SizeEntry};

fn entry(config_path: &str, mtime: u128, script: &str, shell: u8, fp: &str) -> HookEntry {
    HookEntry {
        config_path: config_path.to_string(),
        mtime_nanos: mtime,
        env_script: script.to_string(),
        schema_version: CACHE_SCHEMA_VERSION,
        shell,
        session_fingerprint: fp.to_string(),
    }
}

#[test]
fn hook_cache_reads_back_what_was_put() {
    let mut c = HookCache::empty();
    c.put("/p", entry("/p/.sdkm.toml", 10, "script-1", 0, ""));
    assert_eq!(c.lookup("/p").map(|e| e.env_script.as_str()), Some("script-1"));
    c.put("/p", entry("/p/.sdkm.toml", 11, "script-2", 0, ""));
    assert_eq!(c.lookup("/p").map(|e| e.env_script.as_str()), Some("script-2"));
    assert_eq!(c.dirs(), vec!["/p".to_string()]);
    assert!(c.lookup("/q").is_none());
}

#[test]
fn hook_cache_entry_freshness() {
    let mut c = HookCache::empty();
    c.put("/p", entry("/p/.sdkm.toml", 10, "s", 1, "SDKM_ACTIVE_JAVA=21"));
    assert!(c.resolve("/p", 1, "SDKM_ACTIVE_JAVA=21", Some(10)).is_some());
    assert!(c.resolve("/p", 2, "SDKM_ACTIVE_JAVA=21", Some(10)).is_none(), "other shell");
    assert!(c.resolve("/p", 1, "", Some(10)).is_none(), "other session");
    assert!(c.resolve("/p", 1, "SDKM_ACTIVE_JAVA=21", Some(11)).is_none(), "config changed");
    assert!(c.resolve("/p", 1, "SDKM_ACTIVE_JAVA=21", None).is_none(), "config gone");
    c.put("/n", entry("", 0, "s", 1, ""));
    assert!(c.resolve("/n", 1, "", None).is_some(), "no config file to watch");
    let mut old = entry("", 0, "s", 1, "");
    old.schema_version = CACHE_SCHEMA_VERSION - 1;
    c.put("/o", old);
    assert!(c.resolve("/o", 1, "", None).is_none(), "old schema");
}

#[test]
fn hook_cache_prunes_missing_dirs() {
    let mut c = HookCache::from_entries(vec![
        ("/a".to_string(), entry("", 0, "a", 0, "")),
        ("/b".to_string(), entry("", 0, "b", 0, "")),
        ("/a".to_string(), entry("", 0, "a2", 0, "")),
    ]);
    assert_eq!(c.lookup("/a").map(|e| e.env_script.as_str()), Some("a2"));
    let n = c.dirs().len();
    assert_eq!(n, 2);
    let exists: Vec<bool> = c.dirs().iter().map(|d| d != "/b").collect();
    c.prune(&exists);
    assert_eq!(c.dirs(), vec!["/a".to_string()]);
}

#[test]
fn fingerprint_sorts_session_variables() {
    let vars = vec![
        ("SDKM_ACTIVE_NODE".to_string(), "20".to_string()),
        ("PATH".to_string(), "/bin".to_string()),
        ("SDKM_ACTIVE_JAVA".to_string(), "21".to_string()),
    ];
    assert_eq!(session_fingerprint(&vars, "SDKM_ACTIVE_"), "SDKM_ACTIVE_JAVA=21;SDKM_ACTIVE_NODE=20");
    assert_eq!(session_fingerprint(&vec![("HOME".to_string(), "/h".to_string())], "SDKM_ACTIVE_"), "");
}

#[test]
fn size_cache_reads_back_what_was_recorded() {
    let mut c = SizeCache::empty();
    assert_eq!(c.cached("/s", Some(5)), None);
    assert_eq!(c.record("/s", Some(5), 1234), 1234);
    assert_eq!(c.cached("/s", Some(5)), Some(1234));
    assert_eq!(c.cached("/s", Some(6)), None, "changed since");
    assert_eq!(c.cached("/s", None), None, "time unknown");
    assert_eq!(c.resolve("/s", Some(5), 9), 1234, "hit");
    assert_eq!(c.resolve("/s", Some(6), 9), 9, "miss records the measurement");
    assert_eq!(c.cached("/s", Some(6)), Some(9));
    assert_eq!(c.record("/t", None, 7), 7);
    assert_eq!(c.cached("/t", Some(1)), None, "nothing recorded without a time");
}

#[test]
fn size_cache_prunes_missing_dirs() {
    let mut c = SizeCache::from_entries(vec![
        ("/a".to_string(), SizeEntry { bytes: 1, mtime_secs: 1 }),
        ("/b".to_string(), SizeEntry { bytes: 2, mtime_secs: 2 }),
    ]);
    let exists: Vec<bool> = c.dirs().iter().map(|d| d == "/b").collect();
    c.prune(&exists);
    assert_eq!(c.dirs(), vec!["/b".to_string()]);
    assert_eq!(c.cached("/b", Some(2)), Some(2));
}

#[test]
fn size_cache_entries_and_dirty_flag() {
    let mut c = SizeCache::from_entries(vec![("/a".to_string(), SizeEntry { bytes: 5, mtime_secs: 1 })]);
    assert!(!c.is_dirty());
    assert_eq!(c.resolve("/a", Some(1), 99), 5);
    assert!(!c.is_dirty());
    assert_eq!(c.resolve("/b", Some(2), 7), 7);
    assert!(c.is_dirty());
    let es = c.entries();
    assert_eq!(es.len(), 2);
    assert_eq!(es[0].0, "/a");
    assert_eq!(es[1], ("/b".to_string(), SizeEntry { bytes: 7, mtime_secs: 2 }));
}

#[test]
fn fingerprint_changes_with_any_override() {
    let v = |pairs: &[(&str, &str)]| pairs.iter().map(|(k, v)| (k.to_string(), v.to_string())).collect::<Vec<_>>();
    let base = session_fingerprint(&v(&[("SDKM_ACTIVE_GO", "1.22"), ("PATH", "/bin")]), "SDKM_ACTIVE_");
    let changed = session_fingerprint(&v(&[("SDKM_ACTIVE_GO", "1.21"), ("PATH", "/bin")]), "SDKM_ACTIVE_");
    let added = session_fingerprint(&v(&[("SDKM_ACTIVE_GO", "1.22"), ("SDKM_ACTIVE_JAVA", "21")]), "SDKM_ACTIVE_");
    let removed = session_fingerprint(&v(&[("PATH", "/bin")]), "SDKM_ACTIVE_");
    assert_ne!(base, changed);
    assert_ne!(base, added);
    assert_ne!(base, removed);
    // other variables do not count
    assert_eq!(base, session_fingerprint(&v(&[("HOME", "/h"), ("SDKM_ACTIVE_GO", "1.22")]), "SDKM_ACTIVE_"));
}

#[test]
fn loading_keeps_first_place_and_last_entry() {
    let e = |b: u64| SizeEntry { bytes: b, mtime_secs: 1 };
    let c = SizeCache::from_entries(vec![
        ("/a".to_string(), e(1)),
        ("/b".to_string(), e(2)),
        ("/a".to_string(), e(3)),
    ]);
    assert_eq!(c.entries(), vec![("/a".to_string(), e(3)), ("/b".to_string(), e(2))]);
    assert!(!c.is_dirty());
    let h = HookCache::from_entries(vec![
        ("/p".to_string(), entry("", 0, "one", 1, "")),
        ("/p".to_string(), entry("", 0, "two", 1, "")),
    ]);
    assert_eq!(h.dirs(), vec!["/p".to_string()]);
    assert_eq!(h.lookup("/p").map(|x| x.env_script.clone()), Some("two".to_string()));
}
