use sdkcore::env::unix::{PathAddition, UnixEnvOperation};
use sdkcore::switch::env_restore_plan;
use sdkcore::shell::{export_line_string, ShellKind};
use sdkcore::env::windows::WindowsEnvOperation;
use sdkcore::env::{path_separator, split_path_entries};
use sdkcore::platform::{Target, TargetArch, TargetEnv, TargetOs};
use sdkcore::self_update::{
    bin_name, current_bin_name, is_newer, parse_ver, plan_self_update, platform_asset_name, strip_v, SelfUpdateError,
    SelfUpdatePlan,
};
use sdkcore::version::cache::{
    next_fetch_step, retry_decision, FetchOutcome, FetchStage, FetchStep, RetryDecision, VersionSource,
};

fn t(os: TargetOs, arch: TargetArch, env: TargetEnv) -> Target {
    Target { os, arch, env }
}

fn lines(ls: &[&str]) -> Vec<String> {
    ls.iter().map(|s| s.to_string()).collect()
}

#[test]
fn path_entries_per_platform() {
    let win = t(TargetOs::Windows, TargetArch::X86_64, TargetEnv::Msvc);
    let lin = t(TargetOs::Linux, TargetArch::X86_64, TargetEnv::Gnu);
    assert_eq!(path_separator(win), ";");
    assert_eq!(path_separator(lin), ":");
    assert_eq!(split_path_entries("/a::/b:", lin), lines(&["/a", "/b"]));
    assert_eq!(split_path_entries("C:\\a;C:\\b", win), lines(&["C:\\a", "C:\\b"]));
}

#[test]
fn profile_export_lines_replace_and_remove() {
    let profile = lines(&["# rc", "  export JAVA_HOME=\"/sdk/java\"", "alias x=y"]);
    assert_eq!(UnixEnvOperation::find_path_export_line(&profile), None);
    let replaced =
        UnixEnvOperation::replace_or_append_export(profile, "export JAVA_HOME=", "export JAVA_HOME=\"/sdk/java2\"".to_string());
    assert_eq!(replaced, lines(&["# rc", "export JAVA_HOME=\"/sdk/java2\"", "alias x=y"]));
    let appended = UnixEnvOperation::replace_or_append_export(replaced, "export GOROOT=", "export GOROOT=\"/g\"".to_string());
    assert_eq!(appended.len(), 4);
    assert_eq!(appended[3], "export GOROOT=\"/g\"");
    let removed = UnixEnvOperation::remove_export_lines(&appended, "export JAVA_HOME=");
    assert_eq!(removed, lines(&["# rc", "alias x=y", "export GOROOT=\"/g\""]));
    let with_path = lines(&["x", " export PATH=\"/sdk/bin:$PATH\""]);
    assert_eq!(UnixEnvOperation::find_path_export_line(&with_path), Some(1));
}

#[test]
fn windows_path_entries_ignore_case() {
    assert_eq!(WindowsEnvOperation::path_with_entry("C:\\Windows;C:\\Tools", "C:\\sdk\\bin"), Some("C:\\sdk\\bin;C:\\Windows;C:\\Tools".to_string()));
    assert_eq!(WindowsEnvOperation::path_with_entry("c:\\SDK\\bin;C:\\Windows", "C:\\sdk\\bin"), None);
    assert_eq!(WindowsEnvOperation::path_without_entry("C:\\sdk\\bin;C:\\Windows;c:\\SDK\\BIN", "C:\\sdk\\bin"), "C:\\Windows");
}

#[test]
fn version_tags_and_comparison() {
    assert_eq!(strip_v(" v1.2.3 "), "1.2.3");
    assert_eq!(parse_ver("1.12.3-beta"), (1, 12, 3));
    assert_eq!(parse_ver("2"), (2, 0, 0));
    assert!(is_newer("1.10.0", "1.9.9"));
    assert!(!is_newer("1.2.3", "1.2.3"));
    assert!(!is_newer("1.2.3", "1.3.0"));
}

#[test]
fn newer_is_strict_and_transitive() {
    let vs = ["0.9.0", "1.0.0", "1.0.1", "1.2.0", "2.0.0"];
    for a in vs {
        assert!(!is_newer(a, a));
        for b in vs {
            assert!(!(is_newer(a, b) && is_newer(b, a)));
            for c in vs {
                if is_newer(a, b) && is_newer(b, c) {
                    assert!(is_newer(a, c));
                }
            }
        }
    }
}

#[test]
fn platform_assets() {
    let win = t(TargetOs::Windows, TargetArch::X86_64, TargetEnv::Msvc);
    let musl = t(TargetOs::Linux, TargetArch::X86_64, TargetEnv::Musl);
    let arm_linux = t(TargetOs::Linux, TargetArch::Aarch64, TargetEnv::Gnu);
    assert_eq!(platform_asset_name(win).ok(), Some("sdkm-windows-x86_64.zip"));
    assert_eq!(platform_asset_name(musl).ok(), Some("sdkm-linux-x86_64-musl.tar.gz"));
    assert!(matches!(platform_asset_name(arm_linux), Err(SelfUpdateError::NoPrebuiltAsset)));
    assert_eq!(current_bin_name(win), "sdkm.exe");
    assert_eq!(current_bin_name(musl), "sdkm");
    assert_eq!(bin_name(None), "sdkm");
    assert_eq!(bin_name(Some("sdkm-dev")), "sdkm-dev");
}

#[test]
fn self_update_plans() {
    let win = t(TargetOs::Windows, TargetArch::X86_64, TargetEnv::Msvc);
    let assets = vec![
        ("sdkm-linux-x86_64-gnu.tar.gz".to_string(), "https://r/linux".to_string()),
        ("sdkm-windows-x86_64.zip".to_string(), "https://r/win".to_string()),
    ];
    assert!(matches!(plan_self_update("v1.2.0", "1.2.0", false, win, &assets), Ok(SelfUpdatePlan::UpToDate { latest }) if latest == "1.2.0"));
    assert!(matches!(plan_self_update("v1.3.0", "1.2.0", true, win, &assets), Ok(SelfUpdatePlan::UpdateAvailable { latest }) if latest == "1.3.0"));
    match plan_self_update("v1.3.0", "1.2.0", false, win, &assets) {
        Ok(SelfUpdatePlan::Download { latest, asset_name, url }) => {
            assert_eq!(latest, "1.3.0");
            assert_eq!(asset_name, "sdkm-windows-x86_64.zip");
            assert_eq!(url, "https://r/win");
        }
        _ => panic!("expected a download"),
    }
    match plan_self_update("v1.3.0", "1.2.0", false, t(TargetOs::MacOs, TargetArch::Aarch64, TargetEnv::Other), &assets) {
        Err(e) => assert_eq!(e.message(), "asset `sdkm-macos-aarch64.tar.gz` not found in latest release"),
        _ => panic!("asset missing"),
    }
    // an older release is never installed
    assert!(matches!(plan_self_update("v1.1.0", "1.2.0", false, win, &assets), Ok(SelfUpdatePlan::UpToDate { .. })));
}

#[test]
fn fetch_retries_and_falls_back() {
    assert_eq!(retry_decision(0, FetchOutcome::Response { status: 200 }), RetryDecision::Accept);
    assert_eq!(retry_decision(0, FetchOutcome::Response { status: 429 }), RetryDecision::RateLimited);
    assert_eq!(retry_decision(0, FetchOutcome::Response { status: 503 }), RetryDecision::RetryAfter { secs: 1 });
    assert_eq!(retry_decision(1, FetchOutcome::NetworkError), RetryDecision::RetryAfter { secs: 2 });
    assert_eq!(retry_decision(2, FetchOutcome::Response { status: 500 }), RetryDecision::ServerErrorGiveUp);
    assert_eq!(retry_decision(2, FetchOutcome::NetworkError), RetryDecision::NetworkGiveUp);
    assert_eq!(retry_decision(0, FetchOutcome::Response { status: 404 }), RetryDecision::HttpError);
    let both = VersionSource { primary_url: "p".to_string(), secondary_url: Some("s".to_string()) };
    let one = VersionSource { primary_url: "p".to_string(), secondary_url: Some(String::new()) };
    assert_eq!(next_fetch_step(FetchStage::FreshCache, false, &both), FetchStep::Next(FetchStage::Primary));
    assert_eq!(next_fetch_step(FetchStage::Primary, false, &both), FetchStep::Next(FetchStage::Secondary));
    assert_eq!(next_fetch_step(FetchStage::Primary, false, &one), FetchStep::Next(FetchStage::StaleCache));
    assert_eq!(next_fetch_step(FetchStage::Secondary, true, &both), FetchStep::Done { save: true });
    assert_eq!(next_fetch_step(FetchStage::FreshCache, true, &both), FetchStep::Done { save: false });
    assert_eq!(next_fetch_step(FetchStage::StaleCache, false, &both), FetchStep::Failed);
}

#[test]
fn profile_path_and_values() {
    assert_eq!(UnixEnvOperation::expand_path("~/sdk/bin", Some("/home/u")), "/home/u/sdk/bin");
    assert_eq!(UnixEnvOperation::expand_path("/opt/~x", Some("/home/u")), "/opt/~x");
    assert_eq!(UnixEnvOperation::expand_path("~/x", None), "~/x");
    let profile = lines(&["# x", "  export PATH=\"/sdk/a:/sdk/b:$PATH\"", "export JAVA_HOME=\"/j\""]);
    assert_eq!(UnixEnvOperation::path_from_lines(&profile, "/usr/bin"), "/sdk/a:/sdk/b:$PATH");
    assert_eq!(UnixEnvOperation::path_from_lines(&lines(&["# x"]), "/usr/bin"), "/usr/bin");
    assert!(UnixEnvOperation::path_has_entry("/sdk/a:/sdk/b:$PATH", "/sdk/b"));
    assert!(!UnixEnvOperation::path_has_entry("/sdk/a:/sdk/b", "/sdk"));
    assert_eq!(UnixEnvOperation::profile_value(&profile, "export JAVA_HOME="), Some("/j".to_string()));
    assert_eq!(UnixEnvOperation::profile_value(&profile, "export GOROOT="), None);
}

#[test]
fn fish_per_dir_lines() {
    assert_eq!(
        UnixEnvOperation::append_profile_line("set x 1", "fish_add_path --path \"/opt/sdk/bin\""),
        "set x 1\nfish_add_path --path \"/opt/sdk/bin\"\n"
    );
    assert_eq!(UnixEnvOperation::append_profile_line("", "a"), "a\n");
    let ls = lines(&["a", "  fish_add_path --path \"/opt/sdk/bin\"  ", "b"]);
    assert_eq!(UnixEnvOperation::lines_without(&ls, "fish_add_path --path \"/opt/sdk/bin\""), lines(&["a", "b"]));
}

fn profile_text(lines: &[String]) -> String {
    lines.iter().map(|l| format!("{l}\n")).collect()
}

#[test]
fn bash_export_write_replace_read() {
    let prefix = UnixEnvOperation::export_prefix_string(ShellKind::Bash, "JAVA_HOME");
    let first = export_line_string(ShellKind::Bash, "JAVA_HOME", "/sdk/java");
    let lines = UnixEnvOperation::replace_or_append_export(Vec::new(), &prefix, first);
    let content = profile_text(&lines);
    assert!(content.contains("export JAVA_HOME=\"/sdk/java\""));
    let second = export_line_string(ShellKind::Bash, "JAVA_HOME", "/sdk/java2");
    let lines = UnixEnvOperation::replace_or_append_export(lines, &prefix, second);
    let content = profile_text(&lines);
    assert_eq!(content.lines().filter(|l| l.contains("JAVA_HOME")).count(), 1);
    assert!(content.contains("export JAVA_HOME=\"/sdk/java2\""));
}

#[test]
fn bash_rebuild_line_add_path_entry() {
    match UnixEnvOperation::add_path_lines(Vec::new(), "/usr/bin", "/sdk/bin") {
        PathAddition::Lines(lines) => assert_eq!(profile_text(&lines), "export PATH=\"/sdk/bin:$PATH\"\n"),
        PathAddition::AlreadyPresent => panic!("the entry is new"),
    }
}

#[test]
fn fish_per_dir_add_path_entry() {
    let line = UnixEnvOperation::fish_path_command("/opt/sdk/bin");
    assert_eq!(UnixEnvOperation::append_profile_line("", &line), "fish_add_path --path \"/opt/sdk/bin\"\n");
}

#[test]
fn path_line_prepends_and_skips_present_entries() {
    let ls = lines(&["# rc", "  export PATH=\"/a:$PATH\"", "alias x=y"]);
    match UnixEnvOperation::add_path_lines(ls.clone(), "/usr/bin", "/b") {
        PathAddition::Lines(out) => assert_eq!(out, lines(&["# rc", "export PATH=\"/b:/a:$PATH\"", "alias x=y"])),
        PathAddition::AlreadyPresent => panic!("/b is new"),
    }
    assert!(matches!(UnixEnvOperation::add_path_lines(ls, "/usr/bin", "/a"), PathAddition::AlreadyPresent));
    // without a PATH line the process PATH decides
    assert!(matches!(UnixEnvOperation::add_path_lines(lines(&["x"]), "/usr/bin:/c", "/c"), PathAddition::AlreadyPresent));
}

#[test]
fn path_line_removal_keeps_or_drops_the_line() {
    let ls = lines(&["export PATH=\"/b:/a:$PATH\"", "other"]);
    assert_eq!(UnixEnvOperation::remove_path_lines(ls.clone(), "/b", "/b"), lines(&["export PATH=\"/a:$PATH\"", "other"]));
    let one = lines(&["export PATH=\"/a:$PATH\"", "other"]);
    assert_eq!(UnixEnvOperation::remove_path_lines(one, "~/a", "/a"), lines(&["other"]));
    let none = lines(&["other"]);
    assert_eq!(UnixEnvOperation::remove_path_lines(none.clone(), "/a", "/a"), none);
    assert_eq!(UnixEnvOperation::export_prefix_string(ShellKind::Fish, "GOROOT"), "set -gx GOROOT ");
}

#[test]
fn path_add_then_remove_restores_profile() {
    let with_line = lines(&["# rc", "export PATH=\"/a:$PATH\""]);
    let without_line = lines(&["# rc", "alias ll=ls"]);
    for original in [with_line, without_line] {
        match UnixEnvOperation::add_path_lines(original.clone(), "/usr/bin", "/sdk/go/bin") {
            PathAddition::Lines(added) => {
                assert_ne!(added, original);
                assert_eq!(UnixEnvOperation::remove_path_lines(added, "/sdk/go/bin", "/sdk/go/bin"), original);
            }
            PathAddition::AlreadyPresent => panic!("the directory is new"),
        }
    }
}

#[test]
fn restore_plan_splits_saved_values() {
    let saved = vec![
        ("JAVA_HOME".to_string(), Some("/old/java".to_string())),
        ("GOROOT".to_string(), None),
        ("M2_HOME".to_string(), Some("/m2".to_string())),
    ];
    let (restore, unset) = env_restore_plan(&saved);
    assert_eq!(restore, vec![("JAVA_HOME".to_string(), "/old/java".to_string()), ("M2_HOME".to_string(), "/m2".to_string())]);
    assert_eq!(unset, vec!["GOROOT".to_string()]);
}

#[test]
fn path_entries_drop_empty_and_join_back() {
    let unix = t(TargetOs::Linux, TargetArch::X86_64, TargetEnv::Gnu);
    assert_eq!(split_path_entries("/a::/b:", unix), vec!["/a".to_string(), "/b".to_string()]);
    let clean = "/usr/bin:/opt/sdk/bin:/bin";
    let es = split_path_entries(clean, unix);
    assert!(es.iter().all(|e| !e.is_empty() && !e.contains(':')));
    assert_eq!(es.join(":"), clean);
}
