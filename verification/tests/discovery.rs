use sdkcore::version::discovery::{
    entries_from_versions, extract_python_version, fuzzy_match_version, java_entries, java_major,
    java_resolved_version, map_uv_target, node_entries, AdoptiumReleases, JavaVersionError,
};
use sdkcore::version::truncate;

fn vs(items: &[&str]) -> Vec<String> {
    items.iter().map(|s| s.to_string()).collect()
}

#[test]
fn plain_version_lists_are_sorted_newest_first() {
    let es = entries_from_versions(&vs(&["3.8.1", "3.9.6", "3.10.0", "3.9.12"]));
    let got: Vec<&str> = es.iter().map(|e| e.full_version.as_str()).collect();
    assert_eq!(got, vec!["3.10.0", "3.9.12", "3.9.6", "3.8.1"]);
    assert_eq!(es[0].feature_version.as_deref(), Some("3"));
}

#[test]
fn node_versions_drop_the_v() {
    let es = node_entries(&vs(&["v22.1.0", "v20.12.2"]));
    assert_eq!(es[0].full_version, "22.1.0");
    assert_eq!(es[1].feature_version.as_deref(), Some("20"));
}

#[test]
fn java_majors() {
    let data = AdoptiumReleases { available_releases: vec![8, 11, 17, 21], most_recent_lts_version: Some(21) };
    let es = java_entries(&data);
    assert_eq!(es.len(), 4);
    assert_eq!(es[3].full_version, "21");
    assert_eq!(java_major("17", &data).ok(), Some(17));
    match java_major("22", &data) {
        Err(e) => assert!(e.message().starts_with("[Java version resolve] Java 22 not available in Adoptium, available: ")),
        Ok(_) => panic!("not listed"),
    }
    assert!(matches!(java_major("latest", &data), Err(JavaVersionError::NotANumber { .. })));
    let r = java_resolved_version("21", 21, &vs(&["21.0.5+11", "21.0.4+7"]), "linux", "x64").ok().unwrap();
    assert_eq!(r.full_version, "21.0.5");
    assert_eq!(r.feature_version.as_deref(), Some("21"));
    assert!(java_resolved_version("8", 8, &vec![], "mac", "aarch64").is_err());
}

#[test]
fn python_asset_versions() {
    assert_eq!(extract_python_version("cpython-3.12.4+20240713-x86_64-unknown-linux-gnu-install_only.tar.gz"), Some("3.12.4".to_string()));
    assert_eq!(extract_python_version("SHA256SUMS"), None);
    assert!(map_uv_target("x86_64-unknown-linux-gnu").is_ok());
    match map_uv_target("sparc-sun-solaris") {
        Err(e) => assert_eq!(e.message(), "[Python version sniff] unsupported platform 'sparc-sun-solaris' for uv metadata"),
        Ok(_) => panic!("unsupported"),
    }
}

#[test]
fn entry_matching_prefers_exact() {
    let es = entries_from_versions(&vs(&["3.12.1", "3.11.9"]));
    let r = fuzzy_match_version(&es, "3.11.9").ok().unwrap();
    assert!(!r.fuzzy_matched);
    assert_eq!(r.full_version, "3.11.9");
    let r = fuzzy_match_version(&es, "3").ok().unwrap();
    assert!(r.fuzzy_matched);
    assert_eq!(r.full_version, "3.12.1");
}

#[test]
fn byte_truncation() {
    assert_eq!(truncate("https://example.com", 8), "https://");
    assert_eq!(truncate("short", 80), "short");
}
