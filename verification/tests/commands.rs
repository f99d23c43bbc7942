use sdkcore::cli::{no_installed_versions_msg, self_uninstall_prompt, CliError, InstallHandler, ListHandler, ListMode, SelfUpdateHandler};
use sdkcore::config::{NetworkConfig, SdkConfig, SdkmConfig};
use sdkcore::doctor::{doctor_sdk_line, links_in_path, mark_set};
use sdkcore::init::{init_plan, link_dir_error, InitPlan};
use sdkcore::install::{check_extraction, single_subdir, staging_dir_name};
use sdkcore::list::{
    build_remote_items, check_list_args, install_status, plan_remote_fetch, InstallStatus, ListError,
};
use sdkcore::manager::{fuzzy_match_version, SdkManager};
use sdkcore::shell::ShellKind;
use sdkcore::uninstall::{
    active_sdk_names, plan_uninstall, removal_step, uninstall_prompt, RemovalStep, UninstallError,
};
use sdkcore::use_cmd::{project_pin_value, resolve_local_version, session_use_script};
use sdkcore::version::discovery::{make_entry, VersionEntry};

fn vs(items: &[&str]) -> Vec<String> {
    items.iter().map(|s| s.to_string()).collect()
}

#[test]
fn install_status_marks() {
    let local = vs(&["20.1.0", "18.2.0"]);
    assert_eq!(install_status("20.1.0", &local, Some("20.1.0")), InstallStatus::Active);
    assert_eq!(install_status("18.2.0", &local, Some("20.1.0")), InstallStatus::Installed);
    assert_eq!(install_status("22.0.0", &local, Some("20.1.0")), InstallStatus::NotInstalled);
    assert_eq!(install_status("22.0.0", &vec![], Some("22.0.0")), InstallStatus::Active);
}

fn entries(versions: &[&str]) -> Vec<VersionEntry> {
    versions.iter().map(|v| make_entry(v.to_string(), None, None)).collect()
}

#[test]
fn remote_list_is_cut_to_the_limit() {
    let es = entries(&["22.1.0", "21.0.1", "20.1.0"]);
    let r = build_remote_items(&es, &vs(&["20.1.0"]), Some("21.0.1"), "https://src", 2);
    assert_eq!(r.total_count, 3);
    assert_eq!(r.items.len(), 2);
    assert_eq!(r.items[0].full_version, "22.1.0");
    assert_eq!(r.items[0].feature_version.as_deref(), Some("22"));
    assert_eq!(r.items[0].install_status, InstallStatus::NotInstalled);
    assert_eq!(r.items[1].install_status, InstallStatus::Active);
    assert_eq!(r.items[1].source_url, "https://src");
    let all = build_remote_items(&es, &vs(&["20.1.0"]), None, "https://src", 20);
    assert_eq!(all.items.len(), 3);
    assert_eq!(all.items[2].install_status, InstallStatus::Installed);
}

#[test]
fn remote_fetch_needs_a_source() {
    match plan_remote_fetch("maven", true, "", None) {
        Err(e) => assert_eq!(e.message(), "Maven does not support remote version listing. Specify an exact version to install."),
        Ok(_) => panic!("maven has no list"),
    }
    match plan_remote_fetch("tool", false, "", Some("")) {
        Err(e) => assert_eq!(e.message(), "tool has no version_url configured, cannot list remote versions"),
        Ok(_) => panic!("no source"),
    }
    let p = plan_remote_fetch("tool", false, "", Some("https://fb")).ok().unwrap();
    assert_eq!(p.display_url, "N/A");
    assert_eq!(p.source.secondary_url.as_deref(), Some("https://fb"));
    let p = plan_remote_fetch("node", false, "https://nodejs.org/dist/index.json", None).ok().unwrap();
    assert_eq!(p.display_url, "https://nodejs.org/dist/index.json");
    assert_eq!(p.source.primary_url, "https://nodejs.org/dist/index.json");
}

#[test]
fn list_arguments_are_checked() {
    assert!(matches!(check_list_args(true, true, 0), Err(ListError::ZeroLimit)));
    assert!(matches!(check_list_args(false, true, 20), Err(ListError::MissingSdk)));
    assert!(check_list_args(false, false, 20).is_ok());
    let h = ListHandler { sdk: None, remote: true, limit: 20 };
    match h.mode() {
        Err(e) => assert_eq!(e.message(), "Please specify an SDK name, e.g.: sdkm list <sdk> -r"),
        Ok(_) => panic!("remote needs an sdk"),
    }
    let h = ListHandler { sdk: Some("java".to_string()), remote: false, limit: 0 };
    match h.mode() {
        Err(e) => assert_eq!(e.message(), "limit must be >= 1"),
        Ok(_) => panic!("zero limit"),
    }
    let h = ListHandler { sdk: Some("java".to_string()), remote: true, limit: 5 };
    assert!(matches!(h.mode(), Ok(ListMode::Remote { sdk }) if sdk == "java"));
    let h = ListHandler { sdk: None, remote: false, limit: 5 };
    assert!(matches!(h.mode(), Ok(ListMode::BrowseAll)));
}

#[test]
fn self_update_flags_exclude_each_other() {
    let h = SelfUpdateHandler { check: true, rollback: true };
    match h.check_args() {
        Err(e) => assert_eq!(e.message(), "`--check` and `--rollback` are mutually exclusive"),
        Ok(()) => panic!("both flags"),
    }
    assert!(SelfUpdateHandler { check: true, rollback: false }.check_args().is_ok());
    assert_eq!(CliError::SelfUninstallCancelled.message(), "Self-uninstall cancelled by user");
    assert!(self_uninstall_prompt().ends_with("Continue?"));
    assert!(InstallHandler { sdk: "java".to_string(), sdk_version: "21".to_string(), no_switch: false }.auto_switch());
    assert_eq!(no_installed_versions_msg("go"), "go has no installed versions");
}

#[test]
fn uninstall_of_active_version_switches_first() {
    let versions = vs(&["21.0.1", "17.0.9"]);
    let p = plan_uninstall("java", &versions, &vec![true, false], "21.0.1").ok().unwrap();
    assert_eq!(p.index, 0);
    assert!(p.active);
    assert_eq!(p.other.as_deref(), Some("17.0.9"));
    assert_eq!(
        uninstall_prompt("java", "21.0.1", &p),
        "`java` `21.0.1` is the active version. sdkm will switch to `17.0.9` first, then uninstall. Continue?"
    );
}

#[test]
fn uninstall_of_only_version_cleans_up() {
    let p = plan_uninstall("java", &vs(&["21.0.1"]), &vec![true], "21").ok().unwrap();
    assert!(p.fuzzy);
    assert_eq!(p.other, None);
    assert_eq!(
        uninstall_prompt("java", "21", &p),
        "Resolved '21' → '21.0.1'. `java` `21.0.1` is the only installed version. sdkm will clean up symlink, PATH, env vars and current_version, then remove it. Continue?"
    );
}

#[test]
fn uninstall_of_inactive_version_removes_it_only() {
    let p = plan_uninstall("go", &vs(&["1.22.0", "1.21.5"]), &vec![true, false], "1.21.5").ok().unwrap();
    assert!(!p.active);
    assert_eq!(p.other, None);
    assert_eq!(uninstall_prompt("go", "1.21.5", &p), "sdkm will uninstall `go` `1.21.5` (remove the version directory only). Continue?");
}

#[test]
fn uninstall_errors() {
    match plan_uninstall("go", &vec![], &vec![], "1") {
        Err(e) => assert_eq!(e.message(), "No installed versions for `go`. Nothing to uninstall."),
        Ok(_) => panic!("nothing installed"),
    }
    assert!(matches!(plan_uninstall("go", &vs(&["1.22.0"]), &vec![false], "2"), Err(UninstallError::NoMatch(_))));
    assert_eq!(UninstallError::Cancelled.message(), "Uninstall cancelled by user");
}

#[test]
fn removal_is_tried_three_times() {
    assert_eq!(removal_step(0, true), RemovalStep::Removed);
    assert_eq!(removal_step(0, false), RemovalStep::RetryAfter { ms: 300 });
    assert_eq!(removal_step(1, false), RemovalStep::RetryAfter { ms: 300 });
    assert_eq!(removal_step(2, false), RemovalStep::GiveUp);
}

fn sdk(name: &str, current: Option<&str>) -> SdkConfig {
    let mut s = SdkConfig::new(name.to_string(), String::new(), String::new(), String::new());
    s.current_version = current.map(|c| c.to_string());
    s
}

#[test]
fn self_uninstall_cleans_active_sdks() {
    let sdks = vec![sdk("java", Some("21")), sdk("go", None), sdk("node", Some("20.1.0"))];
    assert_eq!(active_sdk_names(&sdks), vs(&["java", "node"]));
}

#[test]
fn init_keeps_existing_config_unless_forced() {
    assert_eq!(
        init_plan(false, true, true),
        InitPlan { confirm_location: false, confirm_overwrite: false, already_initialized: true, write_config: false }
    );
    assert_eq!(
        init_plan(true, true, false),
        InitPlan { confirm_location: false, confirm_overwrite: true, already_initialized: false, write_config: true }
    );
    assert_eq!(
        init_plan(false, false, false),
        InitPlan { confirm_location: true, confirm_overwrite: false, already_initialized: false, write_config: true }
    );
    assert!(link_dir_error("/x", "denied").starts_with("Failed to create symlink directory '/x': denied\n  Tip:"));
}

#[test]
fn doctor_lines() {
    assert_eq!(mark_set(true), "set");
    assert_eq!(mark_set(false), "unset");
    assert_eq!(doctor_sdk_line("java", true, Some("21")), "java       installed=yes current=21");
    assert_eq!(doctor_sdk_line("verylongname", false, None), "verylongname installed=no  current=-");
    assert!(links_in_path(&vs(&["/usr/bin", "/h/.sdkm/links/java/bin"]), "/h/.sdkm/links/"));
    assert!(!links_in_path(&vs(&["/usr/bin"]), "/h/.sdkm/links/"));
}

#[test]
fn use_resolves_installed_versions() {
    assert_eq!(resolve_local_version(&vs(&["21.0.1", "17.0.9"]), "21"), Some("21.0.1".to_string()));
    assert_eq!(resolve_local_version(&vs(&["21.0.1"]), "22"), None);
    assert_eq!(resolve_local_version(&vec![], "22"), None);
    assert_eq!(project_pin_value(None, "22"), "22");
    assert_eq!(project_pin_value(Some("21.0.1".to_string()), "21"), "21.0.1");
    assert_eq!(session_use_script(ShellKind::Bash, "SDKM_ACTIVE_", "java", Some("21.0.1")).ok().unwrap(), "export SDKM_ACTIVE_JAVA=\"21.0.1\"\n");
    assert_eq!(session_use_script(ShellKind::Fish, "SDKM_ACTIVE_", "my-sdk", Some("1.0")).ok().unwrap(), "set -gx SDKM_ACTIVE_MY_SDK \"1.0\"\n");
    match session_use_script(ShellKind::Bash, "SDKM_ACTIVE_", "java", None) {
        Err(e) => assert_eq!(e.message(), "session version requires a locally installed version"),
        Ok(_) => panic!("not installed"),
    }
}

#[test]
fn release_list_matching() {
    let es = vec![
        make_entry("3.12.1".to_string(), Some("t1".to_string()), None),
        make_entry("3.11.9".to_string(), None, Some("u".to_string())),
    ];
    let r = fuzzy_match_version(&es, "3.11.9").ok().unwrap();
    assert!(!r.fuzzy_matched);
    assert_eq!(r.download_url.as_deref(), Some("u"));
    let r = fuzzy_match_version(&es, "3").ok().unwrap();
    assert!(r.fuzzy_matched);
    assert_eq!(r.full_version, "3.12.1");
    assert_eq!(r.feature_version.as_deref(), Some("3"));
    assert_eq!(r.release_tag.as_deref(), Some("t1"));
    match fuzzy_match_version(&es, "3.10.0") {
        Err(e) => assert_eq!(e.message(), "version '3.10.0' not found in available releases"),
        Ok(_) => panic!("not listed"),
    }
    match fuzzy_match_version(&es, "4") {
        Err(e) => assert_eq!(e.message(), "no version matching '4', try a different major version"),
        Ok(_) => panic!("no 4.x"),
    }
    // a minor version selects the newest patch of it
    let py = entries(&["3.12.10", "3.12.0", "3.11.6"]);
    let r = fuzzy_match_version(&py, "3.12").ok().unwrap();
    assert_eq!(r.full_version, "3.12.10");
    assert!(r.fuzzy_matched);
    assert_eq!(r.feature_version.as_deref(), Some("3.12"));
}

#[test]
fn manager_knows_registered_sdks() {
    let config = SdkmConfig { home_dir: None, symlink_dir: String::new(), network: NetworkConfig::default(), sdks: vec![sdk("java", None)] };
    let m = SdkManager::new(config);
    assert_eq!(m.match_valid_sdk("java").ok(), Some("java".to_string()));
    match m.match_valid_sdk("rust") {
        Err(e) => assert_eq!(e.message(), "Unregistered SDK:`rust` , please manually register it to the SDKM configuration!"),
        Ok(_) => panic!("not registered"),
    }
}

#[test]
fn registered_overview_items() {
    let mut s = sdk("tool", Some("1.0"));
    s.version_url = Some(String::new());
    let item = sdkcore::list::registered_item(&s, true);
    assert_eq!(item.name, "tool");
    assert!(item.installed);
    assert_eq!(item.current.as_deref(), Some("1.0"));
    assert!(!item.has_version_url);
    let mut s = sdk("go", None);
    s.version_url = Some("https://go.dev/dl/?mode=json".to_string());
    assert!(sdkcore::list::registered_item(&s, false).has_version_url);
}

#[test]
fn local_versions_mark_the_active_one() {
    let r = sdkcore::list::local_versions(&vs(&["17.0.9", "21.0.1"]), Some("21.0.1"));
    assert_eq!(r, vec![("17.0.9".to_string(), false), ("21.0.1".to_string(), true)]);
    assert!(sdkcore::list::local_versions(&vs(&["1"]), None).iter().all(|(_, a)| !a));
}

#[test]
fn remote_text_lines() {
    let mk = |s: InstallStatus| sdkcore::list::RemoteVersionItem {
        full_version: "1.2.3".to_string(),
        feature_version: None,
        install_status: s,
        source_url: String::new(),
    };
    assert_eq!(sdkcore::list::remote_text_line(&mk(InstallStatus::Active)), "✅ 1.2.3");
    assert_eq!(sdkcore::list::remote_text_line(&mk(InstallStatus::Installed)), "📦 1.2.3");
    assert_eq!(sdkcore::list::remote_text_line(&mk(InstallStatus::NotInstalled)), "  1.2.3");
}

#[test]
fn session_overrides_win_over_project_pins() {
    let registered = vs(&["java", "node", "go"]);
    let session = vec![None, Some("18.0.0".to_string()), None];
    let pins = vec![("go".to_string(), "1.22".to_string()), ("node".to_string(), "20".to_string())];
    let overridden = vec![false, true];
    let r = sdkcore::shell::env_requests(&registered, &session, &pins, &overridden);
    assert_eq!(r, vec![("node".to_string(), "18.0.0".to_string()), ("go".to_string(), "1.22".to_string())]);
}

#[test]
fn extracted_directories() {
    assert_eq!(single_subdir(&vec![("jdk-21".to_string(), true)]), Some("jdk-21".to_string()));
    assert_eq!(single_subdir(&vec![("a".to_string(), false)]), None);
    assert_eq!(single_subdir(&vec![("a".to_string(), true), ("b".to_string(), true)]), None);
    assert_eq!(staging_dir_name("3.12.1"), "3.12.1_staging");
    assert!(check_extraction("/s/java/21", true, 3, "java", "/s/java/21/bin", true).is_ok());
    assert!(check_extraction("/s/node/20", true, 3, "node", "/s/node/20/bin", false).is_ok());
    match check_extraction("/s/go/1", true, 2, "go", "/s/go/1/bin", false) {
        Err(e) => assert_eq!(e.message(), "Extraction verification failed: go bin directory not found at /s/go/1/bin"),
        Ok(()) => panic!("no bin"),
    }
    match check_extraction("/s/go/1", true, 0, "go", "/s/go/1/bin", false) {
        Err(e) => assert_eq!(e.message(), "Extraction verification failed: directory /s/go/1 is empty"),
        Ok(()) => panic!("empty"),
    }
    match check_extraction("/s/go/1", false, 0, "go", "/s/go/1/bin", false) {
        Err(e) => assert_eq!(e.message(), "Extraction verification failed: directory /s/go/1 does not exist"),
        Ok(()) => panic!("missing"),
    }
}
