use sdkcore::config::{NetworkConfig, SdkConfig, SdkmConfig};
use sdkcore::platform::{Target, TargetArch, TargetEnv, TargetOs};
use sdkcore::switch::{
    conflict_candidates, env_restore_plan, executable_file_names, is_permission_error, need_add_path, permission_hint,
    next_switch_step, plan_switch, rollback_failures, rollback_path_order, start_switch, SwitchAction, SwitchError,
    SwitchEvent, SwitchRun, SwitchStage, SwitchTarget,
};

fn vs(items: &[&str]) -> Vec<String> {
    items.iter().map(|s| s.to_string()).collect()
}

#[test]
fn switch_to_exact_installed_version() {
    let versions = vs(&["17.0.9", "21.0.1"]);
    let p = plan_switch("java", &versions, &vec![true, false], "21.0.1").ok().unwrap();
    assert_eq!(p.version, "21.0.1");
    assert!(!p.confirm);
    assert!(matches!(p.action, SwitchTarget::Link { index: 1 }));
}

#[test]
fn switch_by_prefix_needs_confirmation() {
    let versions = vs(&["17.0.9", "21.0.1", "21.0.3"]);
    let p = plan_switch("java", &versions, &vec![false, false, false], "21").ok().unwrap();
    assert_eq!(p.version, "21.0.3");
    assert!(p.confirm);
    assert!(matches!(p.action, SwitchTarget::Link { index: 2 }));
}

#[test]
fn switch_to_active_version_changes_nothing() {
    let versions = vs(&["17.0.9", "21.0.1"]);
    let p = plan_switch("java", &versions, &vec![true, false], "17.0.9").ok().unwrap();
    assert!(matches!(p.action, SwitchTarget::AlreadyActive));
}

#[test]
fn switch_to_unknown_version_suggests() {
    let versions = vs(&["17.0.9", "21.0.1"]);
    match plan_switch("java", &versions, &vec![false, false], "22") {
        Err(SwitchError::NoMatch(e)) => {
            assert_eq!(e.input, "22");
            assert!(e.message().contains("did you mean"));
        }
        _ => panic!("expected no match"),
    }
}

#[test]
fn path_needs_adding_only_when_missing() {
    assert!(need_add_path("/usr/bin:/bin", "/sdk/links/java/bin"));
    assert!(!need_add_path("/sdk/links/java/bin:/usr/bin", "/sdk/links/java/bin"));
}

#[test]
fn env_rollback_splits_saved_values() {
    let saved = vec![
        ("JAVA_HOME".to_string(), Some("/old".to_string())),
        ("NEW_VAR".to_string(), None),
        ("OTHER".to_string(), Some("x".to_string())),
    ];
    let (restore, unset) = env_restore_plan(&saved);
    assert_eq!(restore, vec![("JAVA_HOME".to_string(), "/old".to_string()), ("OTHER".to_string(), "x".to_string())]);
    assert_eq!(unset, vec!["NEW_VAR".to_string()]);
}

#[test]
fn paths_are_removed_last_first() {
    assert_eq!(rollback_path_order(&vs(&["/a", "/b", "/c"])), vs(&["/c", "/b", "/a"]));
    assert!(rollback_path_order(&vec![]).is_empty());
}

#[test]
fn permission_errors_and_hints() {
    assert!(is_permission_error(5));
    assert!(is_permission_error(13));
    assert!(is_permission_error(1314));
    assert!(!is_permission_error(2));
    let win = Target { os: TargetOs::Windows, arch: TargetArch::X86_64, env: TargetEnv::Msvc };
    let lin = Target { os: TargetOs::Linux, arch: TargetArch::X86_64, env: TargetEnv::Gnu };
    assert_eq!(permission_hint(win), "run sdkm as administrator");
    assert_eq!(permission_hint(lin), "check permissions");
}

#[test]
fn rollback_report_lists_failures_in_order() {
    let r = rollback_failures(false, true, false, true, "/l/java");
    assert_eq!(r.len(), 2);
    assert_eq!(r[0].0, "PATH has stale entries for /l/java.");
    assert_eq!(r[0].1, "Restart your terminal or run `sdkm switch` again.");
    assert_eq!(r[1].0, "Symlink at /l/java could not be restored — SDK may be unavailable.");
    assert!(rollback_failures(false, false, false, false, "/x").is_empty());
    assert_eq!(rollback_failures(true, true, true, true, "/x").len(), 4);
}

#[test]
fn conflicts_ignore_sdkm_links() {
    let entries = vs(&["/home/u/.sdkm/links/java/bin", "/usr/lib/jvm/bin", "/usr/bin"]);
    assert_eq!(conflict_candidates(&entries, "/home/u/.sdkm/links"), vs(&["/usr/lib/jvm/bin", "/usr/bin"]));
}

#[test]
fn executable_names_per_platform() {
    let win = Target { os: TargetOs::Windows, arch: TargetArch::X86_64, env: TargetEnv::Msvc };
    let mac = Target { os: TargetOs::MacOs, arch: TargetArch::Aarch64, env: TargetEnv::Other };
    assert_eq!(executable_file_names(&vs(&["java", "javac"]), win), vs(&["java.exe", "java.cmd", "javac.exe", "javac.cmd"]));
    assert_eq!(executable_file_names(&vs(&["node"]), mac), vs(&["node"]));
}

fn run(paths: &[&str], old_link: Option<&str>) -> SwitchRun {
    SwitchRun {
        set_vars: true,
        paths: paths.iter().map(|p| p.to_string()).collect(),
        saved: vec![("JAVA_HOME".to_string(), Some("/old".to_string())), ("JRE_HOME".to_string(), None)],
        old_link: old_link.map(String::from),
        link: "/l/java".to_string(),
        target: Target { os: TargetOs::Linux, arch: TargetArch::X86_64, env: TargetEnv::Gnu },
        sdk: "java".to_string(),
        version: "21.0.2".to_string(),
        old_version: Some("17.0.9".to_string()),
    }
}

fn java_config() -> SdkmConfig {
    let mut java = SdkConfig::new("java".to_string(), String::new(), "https://x/{version}".to_string(), "bin".to_string());
    java.current_version = Some("17.0.9".to_string());
    SdkmConfig { home_dir: None, symlink_dir: String::new(), network: NetworkConfig::default(), sdks: vec![java] }
}

fn current(c: &SdkmConfig) -> Option<String> {
    c.sdks[0].current_version.clone()
}

#[test]
fn switch_steps_run_in_order() {
    let r = run(&["/l/java/bin", "/l/java/jre/bin"], None);
    let mut c = java_config();
    let (s, a) = start_switch();
    assert!(matches!(a, SwitchAction::CreateLink));
    let (s, a) = next_switch_step(&r, &mut c, s, SwitchEvent::Done);
    assert!(matches!(a, SwitchAction::SetVars));
    let (s, a) = next_switch_step(&r, &mut c, s, SwitchEvent::Done);
    assert!(matches!(&a, SwitchAction::AddPath { entry } if entry == "/l/java/bin"));
    let (s, a) = next_switch_step(&r, &mut c, s, SwitchEvent::Done);
    assert!(matches!(&a, SwitchAction::AddPath { entry } if entry == "/l/java/jre/bin"));
    assert_eq!(current(&c).as_deref(), Some("17.0.9"));
    let (s, a) = next_switch_step(&r, &mut c, s, SwitchEvent::Done);
    assert!(matches!(a, SwitchAction::WriteConfig));
    assert_eq!(current(&c).as_deref(), Some("21.0.2"));
    let (s, a) = next_switch_step(&r, &mut c, s, SwitchEvent::Done);
    assert!(matches!(s, SwitchStage::Finished));
    assert!(matches!(a, SwitchAction::Succeed));
}

#[test]
fn failed_switch_step_rolls_back_and_reports() {
    let r = run(&["/a", "/b"], Some("/store/java/17"));
    let mut c = java_config();
    let (s, _) = start_switch();
    let (s, _) = next_switch_step(&r, &mut c, s, SwitchEvent::Done);
    let (s, _) = next_switch_step(&r, &mut c, s, SwitchEvent::Done);
    let (s, _) = next_switch_step(&r, &mut c, s, SwitchEvent::Done);
    let (s, a) = next_switch_step(&r, &mut c, s, SwitchEvent::Failed { error: "denied".to_string(), os_code: Some(13) });
    assert_eq!(current(&c).as_deref(), Some("17.0.9"));
    match a {
        SwitchAction::RollBack { remove_paths, restore_vars, unset_vars, relink } => {
            assert_eq!(remove_paths, vec!["/a".to_string()]);
            assert_eq!(restore_vars, vec![("JAVA_HOME".to_string(), "/old".to_string())]);
            assert_eq!(unset_vars, vec!["JRE_HOME".to_string()]);
            assert_eq!(relink.as_deref(), Some("/store/java/17"));
        }
        _ => panic!("expected a rollback"),
    }
    let ev = SwitchEvent::RolledBack { config_failed: false, paths_failed: true, envs_failed: false, link_failed: false };
    let (s, a) = next_switch_step(&r, &mut c, s, ev);
    assert!(matches!(s, SwitchStage::Finished));
    match a {
        SwitchAction::Fail { error, failures } => {
            assert_eq!(error, "denied: check permissions");
            assert_eq!(failures.len(), 1);
            assert_eq!(failures[0].0, "PATH has stale entries for /l/java.");
        }
        _ => panic!("expected the failure"),
    }
    // a failure while writing the config removes every added entry, newest first
    let (s, _) = start_switch();
    let s = (0..4).fold(s, |s, _| next_switch_step(&r, &mut c, s, SwitchEvent::Done).0);
    assert_eq!(current(&c).as_deref(), Some("21.0.2"));
    match next_switch_step(&r, &mut c, s, SwitchEvent::Failed { error: "io".to_string(), os_code: None }).1 {
        SwitchAction::RollBack { remove_paths, .. } => assert_eq!(remove_paths, vec!["/b".to_string(), "/a".to_string()]),
        _ => panic!("expected a rollback"),
    }
    // the configuration kept in memory is back as it was before the switch
    assert_eq!(current(&c).as_deref(), Some("17.0.9"));
}
