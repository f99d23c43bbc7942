use sdkcore::config::keys::{known_keys, parse_config_key, ConfigKey, SdkField};
use sdkcore::config::validation::{field_type, key_meta, mask_token, validate_by_type, ValidatedValue, ValueType};
use sdkcore::config::{default_cache_ttl_secs, ConfigError, NetworkConfig, SdkConfig, SdkmConfig};

fn config() -> SdkmConfig {
    let mut java = SdkConfig::new(
        "java".to_string(),
        "https://api.adoptium.net/v3/info/available_releases".to_string(),
        "https://x/{version}".to_string(),
        "bin".to_string(),
    );
    java.extra_vars = vec![("JAVA_HOME".to_string(), "{sdk_dir}".to_string())];
    let tool = SdkConfig::new("tool".to_string(), String::new(), "https://t/{version}".to_string(), String::new());
    SdkmConfig { home_dir: None, symlink_dir: String::new(), network: NetworkConfig::default(), sdks: vec![java, tool] }
}

#[test]
fn keys_parse_and_display_back() {
    for text in [
        "symlink_dir",
        "network.proxy",
        "network.cache_ttl_secs",
        "sdk.java.download_url",
        "sdk.my-tool.bin_dir",
        "sdk.java.extra_vars.JAVA_HOME",
        "sdk.python.extra_paths.2",
    ] {
        let k = parse_config_key(text).ok().unwrap();
        assert_eq!(k.display(), text);
    }
    assert!(matches!(
        parse_config_key("sdk.java.current_version").ok(),
        Some(ConfigKey::Sdk { field: SdkField::CurrentVersion, .. })
    ));
    assert!(matches!(parse_config_key("sdk.java.extra_paths.7").ok(), Some(ConfigKey::SdkExtraPath { index: 7, .. })));
}

#[test]
fn bad_keys_are_explained() {
    let e = parse_config_key("sdk.java").err().unwrap();
    assert!(e.message().starts_with("Invalid config key 'sdk.java'. SDK keys require 3+ segments"));
    let e = parse_config_key("sdk.java.extra_vars").err().unwrap();
    assert_eq!(
        e.message(),
        "Invalid config key 'sdk.java.extra_vars'. For extra_vars, use: sdk.java.extra_vars.<KEY>\nFor extra_paths, use: sdk.java.extra_paths.<N>"
    );
    let e = parse_config_key("sdk.java.extra_paths.x").err().unwrap();
    assert_eq!(e.message(), "Invalid extra_paths index 'x', must be a non-negative integer");
    let e = parse_config_key("network.nope").err().unwrap();
    assert!(e.message().starts_with("Invalid config key 'network.nope'.\nValid keys:"));
    assert_eq!(known_keys().len(), 14);
    assert_eq!(known_keys()[0], "symlink_dir");
}

#[test]
fn values_are_validated_by_type() {
    assert!(matches!(validate_by_type("yes", &ValueType::Bool), Ok(ValidatedValue::Bool(true))));
    assert!(matches!(validate_by_type("OFF", &ValueType::Bool), Ok(ValidatedValue::Bool(false))));
    match validate_by_type("maybe", &ValueType::Bool) {
        Err(e) => assert_eq!(e.message(), "Invalid boolean value 'maybe'. Accepted: true/false/1/0/yes/no/on/off"),
        Ok(_) => panic!("not a bool"),
    }
    assert!(matches!(validate_by_type("45", &ValueType::U32 { min: 1, max: 600 }), Ok(ValidatedValue::U32(45))));
    match validate_by_type("0", &ValueType::U32 { min: 1, max: 600 }) {
        Err(e) => assert_eq!(e.message(), "Value 0 out of range [1, 600]"),
        Ok(_) => panic!("out of range"),
    }
    match validate_by_type("ftp://x", &ValueType::Url) {
        Err(e) => assert_eq!(e.message(), "Invalid URL scheme 'ftp'. Supported: http, https, socks5"),
        Ok(_) => panic!("bad scheme"),
    }
    assert!(matches!(validate_by_type("socks5://127.0.0.1:1080", &ValueType::Url), Ok(ValidatedValue::Url(_))));
    assert!(matches!(validate_by_type("https://x/{version}/{os}", &ValueType::UrlTemplate), Ok(ValidatedValue::Url(_))));
    match validate_by_type("", &ValueType::Token) {
        Err(e) => assert_eq!(e.message(), "Token value cannot be empty"),
        Ok(_) => panic!("empty token"),
    }
    match validate_by_type("a/b", &ValueType::FreeString) {
        Err(e) => assert!(e.message().starts_with("Value must be a simple directory name")),
        Ok(_) => panic!("separator"),
    }
}

#[test]
fn tokens_are_masked() {
    assert_eq!(mask_token("ghp_abc123"), "ghp_***");
    assert_eq!(mask_token("abc"), "***");
    assert_eq!(mask_token("abcd"), "***");
    assert_eq!(mask_token("日本語テキスト"), "日本語テ***");
    assert_eq!(mask_token("éabcd"), "éabc***");
    assert_eq!(mask_token("abcé"), "***");
}

#[test]
fn key_facts() {
    let k = parse_config_key("network.connect_timeout").ok().unwrap();
    assert_eq!(field_type(&k), ValueType::U32 { min: 1, max: 600 });
    let m = key_meta(&k, false);
    assert!(!m.deletable);
    assert_eq!(m.default_desc, "30");
    let k = parse_config_key("sdk.tool.version_url").ok().unwrap();
    assert!(key_meta(&k, false).deletable);
    assert!(!key_meta(&k, true).deletable);
    assert_eq!(default_cache_ttl_secs(), 3600);
}

#[test]
fn set_then_get_reads_the_value_back() {
    let mut c = config();
    let k = parse_config_key("sdk.java.current_version").ok().unwrap();
    let v = validate_by_type("21.0.1", &field_type(&k)).ok().unwrap();
    c.apply_set_value(&k, v);
    assert_eq!(c.get_raw_value(&k).ok(), Some("21.0.1".to_string()));
    let k = parse_config_key("network.cache_ttl_secs").ok().unwrap();
    let v = validate_by_type("120", &field_type(&k)).ok().unwrap();
    c.apply_set_value(&k, v);
    assert_eq!(c.get_raw_value(&k).ok(), Some("120".to_string()));
    let k = parse_config_key("sdk.tool.extra_vars.TOOL_HOME").ok().unwrap();
    let v = validate_by_type("/opt/tool", &field_type(&k)).ok().unwrap();
    c.apply_set_value(&k, v);
    assert_eq!(c.get_raw_value(&k).ok(), Some("/opt/tool".to_string()));
}

#[test]
fn delete_then_get_reads_empty() {
    let mut c = config();
    let k = parse_config_key("sdk.tool.version_url").ok().unwrap();
    assert!(c.delete_check(&k).is_ok());
    c.apply_delete_value(&k);
    assert_eq!(c.get_raw_value(&k).ok(), Some(String::new()));
    let k = parse_config_key("sdk.java.version_url").ok().unwrap();
    match c.delete_check(&k) {
        Err(e) => assert!(e.message().starts_with("Cannot delete config key 'sdk.java.version_url'.")),
        Ok(_) => panic!("built-in fields stay"),
    }
}

#[test]
fn token_is_masked_on_get() {
    let mut c = config();
    c.network.github_token = Some("ghp_secret".to_string());
    let k = parse_config_key("network.github_token").ok().unwrap();
    assert_eq!(c.get_value(&k).ok(), Some("ghp_***".to_string()));
    assert_eq!(c.get_raw_value(&k).ok(), Some("ghp_secret".to_string()));
}

#[test]
fn unknown_sdk_is_reported() {
    let c = config();
    let k = parse_config_key("sdk.rust.bin_dir").ok().unwrap();
    match c.get_raw_value(&k) {
        Err(e) => assert_eq!(e.message(), "SDK 'rust' not found in config."),
        Ok(_) => panic!("no such sdk"),
    }
}

#[test]
fn sdk_entries_are_added_and_removed() {
    let mut c = config();
    let dup = SdkConfig::new("tool".to_string(), String::new(), String::new(), String::new());
    assert!(matches!(c.add_sdk_entry(dup), Err(ConfigError::SdkExists { .. })));
    let fresh = SdkConfig::new("deno".to_string(), String::new(), "https://d".to_string(), String::new());
    assert!(c.add_sdk_entry(fresh).is_ok());
    assert!(c.find_sdk_by_name("deno").is_ok());
    match c.remove_sdk_entry("java") {
        Err(e) => assert_eq!(e.message(), "Cannot remove built-in SDK 'java'. Use `sdkm config set` to modify its fields."),
        Ok(()) => panic!("built-in"),
    }
    assert!(c.remove_sdk_entry("deno").is_ok());
    assert!(c.find_sdk_by_name("deno").is_err());
    assert!(matches!(c.remove_sdk_entry("deno"), Err(ConfigError::SdkNotFound { .. })));
}

#[test]
fn all_values_are_listed_by_sdk_name() {
    let c = config();
    let all = c.list_all_values();
    let keys: Vec<&str> = all.iter().map(|(k, _)| k.as_str()).collect();
    assert_eq!(keys[0], "symlink_dir");
    let java = keys.iter().position(|k| *k == "sdk.java.download_url").unwrap();
    let tool = keys.iter().position(|k| *k == "sdk.tool.download_url").unwrap();
    assert!(java < tool);
    assert!(all.iter().any(|(k, v)| k == "sdk.java.extra_vars.JAVA_HOME" && v == "{sdk_dir}"));
    // six settings, then six rows per SDK plus one per extra variable or path
    assert_eq!(all.len(), 6 + (6 + 1) + 6);
}

#[test]
fn template_placeholders_are_checked_as_url_parts() {
    // the scheme itself may be a placeholder: `{proto}` stands for a real value
    assert!(validate_by_type("{proto}://dl.example.com/{version}.zip", &ValueType::UrlTemplate).is_ok());
    match validate_by_type("dl.example.com/{version}.zip", &ValueType::UrlTemplate) {
        Err(e) => assert_eq!(e.message(), "Invalid URL template: 'dl.example.com/{version}.zip'"),
        Ok(_) => panic!("no scheme"),
    }
}

#[test]
fn sdk_lookup_by_name() {
    let c = config();
    assert_eq!(c.find_sdk("tool").map(|s| s.download_url.clone()), Some("https://t/{version}".to_string()));
    assert!(c.find_sdk("rust").is_none());
    assert!(c.exist_sdk("java"));
    assert!(!c.exist_sdk("rust"));
    match c.find_sdk_ok("rust") {
        Err(e) => assert_eq!(e.message(), "Unregistered SDK:`rust` please check config!"),
        Ok(_) => panic!("not registered"),
    }
    assert_eq!(c.find_sdk_ok("java").map(|s| s.bin_dir.clone()).ok(), Some("bin".to_string()));
}
