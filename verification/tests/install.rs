use sdkcore::install::{
    derive_archive_filename, fallback_download_url, fallback_template, is_zip_archive, next_install_step,
    parse_arch_style, parse_os_style, primary_download_url, resolve_without_source, start_install, ArchStyle,
    InstallAction, InstallError, InstallEvent, InstallPlan, InstallStage, OsStyle, download_plan, template_sdk,
    DownloadPlan, StyleError, TemplateSdk, TemplateVar,
};
use sdkcore::platform::{Target, TargetArch, TargetEnv, TargetOs};
use sdkcore::version::discovery::ResolvedVersion;

fn linux() -> Target {
    Target { os: TargetOs::Linux, arch: TargetArch::X86_64, env: TargetEnv::Gnu }
}

fn windows() -> Target {
    Target { os: TargetOs::Windows, arch: TargetArch::X86_64, env: TargetEnv::Msvc }
}

#[test]
fn archive_name_from_url() {
    assert_eq!(
        derive_archive_filename("https://x/dist/node-v20.1.0-linux-x64.tar.gz?sig=1/2", linux()),
        "node-v20.1.0-linux-x64.tar.gz"
    );
    assert_eq!(derive_archive_filename("https://x/jdk-21%2B35.zip", linux()), "jdk-21+35.zip");
    assert_eq!(derive_archive_filename("https://api.x/binary/latest", linux()), "sdk.tar.gz");
    assert_eq!(derive_archive_filename("https://api.x/binary/latest", windows()), "sdk.zip");
    assert!(is_zip_archive("sdk.zip"));
    assert!(!is_zip_archive("sdk.tar.gz"));
}

#[test]
fn exact_version_required_without_source() {
    let r = resolve_without_source("3.9.6").ok().unwrap();
    assert_eq!(r.full_version, "3.9.6");
    assert_eq!(r.feature_version.as_deref(), Some("3"));
    assert!(!r.fuzzy_matched);
    match resolve_without_source("3") {
        Err(e) => assert_eq!(e.message(), "exact version required, fuzzy '3' not supported (no version_url configured)"),
        Ok(_) => panic!("a fuzzy version needs a source"),
    }
}

#[test]
fn download_urls() {
    let direct = ResolvedVersion {
        full_version: "3.12.1".to_string(),
        feature_version: None,
        release_tag: None,
        download_url: Some("https://direct".to_string()),
        fuzzy_matched: false,
    };
    assert_eq!(primary_download_url(&direct, "https://rendered"), "https://direct");
    let templ = ResolvedVersion { download_url: None, ..direct };
    assert_eq!(primary_download_url(&templ, "https://rendered"), "https://rendered");
    assert_eq!(fallback_template(Some("a"), Some("b")), Some("a".to_string()));
    assert_eq!(fallback_template(None, Some("b")), Some("b".to_string()));
    assert_eq!(fallback_template(None, None), None);
    assert_eq!(fallback_download_url("t/{version}", true, Some("t/1")), "t/{version}");
    assert_eq!(fallback_download_url("t/{version}", false, Some("t/1")), "t/1");
    assert_eq!(fallback_download_url("t/{version}", false, None), "t/{version}");
}

fn plan(fallback: Option<&str>, auto_switch: bool) -> InstallPlan {
    InstallPlan {
        primary_url: "https://p/sdk-1.0.zip".to_string(),
        fallback_url: fallback.map(|s| s.to_string()),
        auto_switch,
        target: linux(),
    }
}

#[test]
fn install_flows_through_fallback() {
    let p = plan(Some("https://f/sdk-1.0.tar.gz"), true);
    let (st, act) = start_install(true);
    assert_eq!(st, InstallStage::Confirming);
    assert!(matches!(act, InstallAction::AskConfirm));
    let (st, act) = next_install_step(&p, st, InstallEvent::Confirmed(true));
    assert_eq!(st, InstallStage::Checking);
    assert!(matches!(act, InstallAction::CheckInstalled));
    let (st, act) = next_install_step(&p, st, InstallEvent::Exists(false));
    assert_eq!(st, InstallStage::Primary);
    match act {
        InstallAction::Download { url } => assert_eq!(url, "https://p/sdk-1.0.zip"),
        _ => panic!("expected the primary download"),
    }
    let (st, act) = next_install_step(&p, st, InstallEvent::Downloaded(false));
    assert_eq!(st, InstallStage::Fallback);
    match act {
        InstallAction::Download { url } => assert_eq!(url, "https://f/sdk-1.0.tar.gz"),
        _ => panic!("expected the fallback download"),
    }
    let (st, act) = next_install_step(&p, st, InstallEvent::Downloaded(true));
    assert_eq!(st, InstallStage::Extracting { fallback: true });
    match act {
        InstallAction::Extract { archive, zip } => {
            assert_eq!(archive, "sdk-1.0.tar.gz");
            // the archive type comes from the primary URL
            assert!(zip);
        }
        _ => panic!("expected an extraction"),
    }
    let (st, act) = next_install_step(&p, st, InstallEvent::Extracted(true));
    assert_eq!(st, InstallStage::Verifying);
    assert!(matches!(act, InstallAction::Verify));
    let (st, act) = next_install_step(&p, st, InstallEvent::Verified(true));
    assert_eq!(st, InstallStage::Switching);
    assert!(matches!(act, InstallAction::CleanUpAndSwitch));
    let (st, act) = next_install_step(&p, st, InstallEvent::Switched);
    assert_eq!(st, InstallStage::Finished);
    assert!(matches!(act, InstallAction::Finish));
}

#[test]
fn install_stops_where_it_must() {
    let p = plan(None, false);
    let (_, act) = next_install_step(&p, InstallStage::Confirming, InstallEvent::Confirmed(false));
    assert!(matches!(act, InstallAction::Fail(InstallError::Cancelled)));
    let (_, act) = next_install_step(&p, InstallStage::Checking, InstallEvent::Exists(true));
    assert!(matches!(act, InstallAction::Finish));
    let (st, act) = next_install_step(&plan(None, true), InstallStage::Checking, InstallEvent::Exists(true));
    assert_eq!(st, InstallStage::Switching);
    assert!(matches!(act, InstallAction::Switch));
    let (_, act) = next_install_step(&p, InstallStage::Primary, InstallEvent::Downloaded(false));
    assert!(matches!(act, InstallAction::Fail(InstallError::DownloadFailed)));
    let (_, act) = next_install_step(&p, InstallStage::Extracting { fallback: false }, InstallEvent::Extracted(false));
    assert!(matches!(act, InstallAction::Fail(InstallError::ExtractionFailed)));
    let (_, act) = next_install_step(&p, InstallStage::Verifying, InstallEvent::Verified(false));
    assert!(matches!(act, InstallAction::Fail(InstallError::VerificationFailed)));
    let (st, act) = next_install_step(&p, InstallStage::Verifying, InstallEvent::Verified(true));
    assert_eq!(st, InstallStage::Finished);
    assert!(matches!(act, InstallAction::CleanUpAndFinish));
    let (st, _) = start_install(false);
    assert_eq!(st, InstallStage::Checking);
}

#[test]
fn template_styles() {
    assert_eq!(parse_os_style("short").ok(), Some(OsStyle::Short));
    assert_eq!(parse_arch_style("go").ok(), Some(ArchStyle::Go));
    match parse_os_style("weird") {
        Err(e) => assert_eq!(e.message(), "Invalid os_style 'weird'. Valid values: default, short, adoptium"),
        Ok(_) => panic!("unknown style"),
    }
    match parse_arch_style("x86") {
        Err(e) => assert_eq!(e.message(), "Invalid arch_style 'x86'. Valid values: default, adoptium, python, go"),
        Ok(_) => panic!("unknown style"),
    }
}

fn resolved(full: &str, feature: Option<&str>, tag: Option<&str>, url: Option<&str>) -> ResolvedVersion {
    ResolvedVersion {
        full_version: full.to_string(),
        feature_version: feature.map(String::from),
        release_tag: tag.map(String::from),
        download_url: url.map(String::from),
        fuzzy_matched: false,
    }
}

fn var_names(plan: DownloadPlan) -> Vec<String> {
    match plan {
        DownloadPlan::Direct(u) => vec![format!("direct:{u}")],
        DownloadPlan::Render(vars) => vars
            .iter()
            .map(|v| match v {
                TemplateVar::Os(s) => format!("os:{s:?}"),
                TemplateVar::Arch(s) => format!("arch:{s:?}"),
                TemplateVar::OsExt => "ext".to_string(),
                TemplateVar::Platform => "platform".to_string(),
                TemplateVar::Version(x) => format!("version:{x}"),
                TemplateVar::FeatureVersion(x) => format!("feature:{x}"),
                TemplateVar::ReleaseTag(x) => format!("tag:{x}"),
            })
            .collect(),
    }
}

#[test]
fn template_sdk_by_name_and_styles() {
    assert!(matches!(template_sdk("java", Some("bogus"), None), Ok(TemplateSdk::Java)));
    assert!(matches!(template_sdk("go", None, None), Ok(TemplateSdk::Go)));
    assert!(matches!(
        template_sdk("helm", None, Some("go")),
        Ok(TemplateSdk::Custom { os: OsStyle::Default, arch: ArchStyle::Go })
    ));
    match template_sdk("helm", Some("weird"), Some("also-weird")) {
        Err(e @ StyleError::InvalidOsStyle { .. }) => {
            assert_eq!(e.message(), "Invalid os_style 'weird'. Valid values: default, short, adoptium")
        }
        _ => panic!("expected an os style error"),
    }
    assert!(matches!(template_sdk("helm", Some("short"), Some("x")), Err(StyleError::InvalidArchStyle { .. })));
}

#[test]
fn download_plan_per_sdk() {
    let r = resolved("21.0.2+13", Some("21"), None, None);
    assert_eq!(var_names(download_plan(TemplateSdk::Java, &r)), vec!["os:Adoptium", "arch:Adoptium", "ext", "feature:21"]);
    let n = resolved("20.11.0", None, None, Some("https://ignored"));
    assert_eq!(var_names(download_plan(TemplateSdk::Node, &n)), vec!["os:Short", "arch:Default", "ext", "version:v20.11.0"]);
    let p = resolved("3.12.1", None, Some("20240107"), None);
    assert_eq!(var_names(download_plan(TemplateSdk::Python, &p)), vec!["version:3.12.1", "platform", "tag:20240107"]);
    let pd = resolved("3.12.1", None, None, Some("https://direct/py.tar.gz"));
    assert_eq!(var_names(download_plan(TemplateSdk::Python, &pd)), vec!["direct:https://direct/py.tar.gz"]);
    assert_eq!(var_names(download_plan(TemplateSdk::Maven, &n)), vec!["ext", "version:20.11.0"]);
    assert_eq!(var_names(download_plan(TemplateSdk::Go, &n)), vec!["os:Default", "arch:Go", "ext", "version:20.11.0"]);
    let custom = TemplateSdk::Custom { os: OsStyle::Short, arch: ArchStyle::Python };
    assert_eq!(var_names(download_plan(custom, &n)), vec!["os:Short", "arch:Python", "ext", "version:20.11.0"]);
}

#[test]
fn longest_install_ends_within_seven_steps() {
    // prefix match confirmed, not installed, primary fails, fallback works, then switch
    let p = plan(Some("https://mirror/x.tar.gz"), true);
    let events = [
        InstallEvent::Confirmed(true),
        InstallEvent::Exists(false),
        InstallEvent::Downloaded(false),
        InstallEvent::Downloaded(true),
        InstallEvent::Extracted(true),
        InstallEvent::Verified(true),
        InstallEvent::Switched,
    ];
    let (mut stage, _) = start_install(true);
    let mut seen = vec![stage];
    for ev in events {
        let (next, _) = next_install_step(&p, stage, ev);
        assert!(!seen.contains(&next));
        seen.push(next);
        stage = next;
    }
    assert_eq!(stage, InstallStage::Finished);
    assert_eq!(seen.len(), 8);
}
