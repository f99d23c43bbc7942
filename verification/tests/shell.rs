use sdkcore::config::SdkConfig;
use sdkcore::shell::{
    join_lines, known_env_keys, plan_profile_injection, render_env_script, sanitize_env_suffix, session_value,
    session_var_name, ProfileEdit, SelectedSdk, ShellKind,
};

const E: &str = "_SDKM_BASE_PATH";

fn sample_selected() -> Vec<(String, SelectedSdk)> {
    vec![(
        "java".to_string(),
        SelectedSdk {
            bins: vec!["bin/a".to_string(), "bin/b".to_string()],
            env_vars: vec![("JAVA_HOME".to_string(), "/sdk/java".to_string())],
        },
    )]
}

fn sample_known() -> Vec<String> {
    vec!["EXTRA".to_string(), "JAVA_HOME".to_string()]
}

#[test]
fn render_env_script_fish_golden() {
    let e = E;
    let script = render_env_script(ShellKind::Fish, &sample_selected(), &sample_known(), E);
    assert_eq!(
        script,
        format!(
            "if not set -q {e}\n    set -gx {e} $PATH\nend\n\
             set -gx PATH \"bin/a\" \"bin/b\" ${e}\n\
             set -q EXTRA; and set -e EXTRA\n\
             set -gx JAVA_HOME \"/sdk/java\"\n"
        )
    );
}

#[test]
fn render_env_script_bash_golden() {
    let e = E;
    let script = render_env_script(ShellKind::Bash, &sample_selected(), &sample_known(), E);
    assert_eq!(
        script,
        format!(
            "[ -z \"${{{e}:-}}\" ] && export {e}=\"$PATH\"\n\
             export PATH=\"bin/a:bin/b:${e}\"\n\
             unset EXTRA\n\
             export JAVA_HOME=\"/sdk/java\"\n"
        )
    );
    assert_eq!(script, render_env_script(ShellKind::Zsh, &sample_selected(), &sample_known(), E));
}

#[test]
fn render_env_script_powershell_golden() {
    let e = E;
    let script = render_env_script(ShellKind::PowerShell, &sample_selected(), &sample_known(), E);
    assert_eq!(
        script,
        format!(
            "if (-not $env:{e}) {{ $env:{e} = $env:PATH }}\n\
             $env:PATH = \"bin/a;bin/b;\" + $env:{e}\n\
             Remove-Item Env:EXTRA -ErrorAction SilentlyContinue\n\
             $env:JAVA_HOME = \"/sdk/java\"\n"
        )
    );
}

#[test]
fn leaving_a_project_restores_path_and_removes_variables() {
    let script = render_env_script(ShellKind::Bash, &vec![], &sample_known(), E);
    assert_eq!(
        script,
        "[ -z \"${_SDKM_BASE_PATH:-}\" ] && export _SDKM_BASE_PATH=\"$PATH\"\n\
         export PATH=\"$_SDKM_BASE_PATH\"\n\
         unset EXTRA\n\
         unset JAVA_HOME\n"
    );
}

#[test]
fn several_sdks_keep_their_order() {
    let selected = vec![
        ("go".to_string(), SelectedSdk { bins: vec!["/g/bin".to_string()], env_vars: vec![("GOROOT".to_string(), "/g".to_string())] }),
        ("java".to_string(), SelectedSdk { bins: vec!["/j/bin".to_string()], env_vars: vec![("JAVA_HOME".to_string(), "/j".to_string())] }),
    ];
    let known = vec!["GOROOT".to_string(), "JAVA_HOME".to_string()];
    let script = render_env_script(ShellKind::Bash, &selected, &known, E);
    assert_eq!(
        script,
        "[ -z \"${_SDKM_BASE_PATH:-}\" ] && export _SDKM_BASE_PATH=\"$PATH\"\n\
         export PATH=\"/g/bin:/j/bin:$_SDKM_BASE_PATH\"\n\
         export GOROOT=\"/g\"\n\
         export JAVA_HOME=\"/j\"\n"
    );
}

#[test]
fn env_suffix_is_upper_case_with_underscores() {
    assert_eq!(sanitize_env_suffix("java"), "JAVA");
    assert_eq!(sanitize_env_suffix("my-sdk.2"), "MY_SDK_2");
    assert_eq!(session_var_name("SDKM_ACTIVE_", "node-lts"), "SDKM_ACTIVE_NODE_LTS");
}

#[test]
fn empty_session_value_does_not_count() {
    assert_eq!(session_value(Some("21")), Some("21".to_string()));
    assert_eq!(session_value(Some("")), None);
    assert_eq!(session_value(None), None);
}

fn sdk_with_vars(name: &str, vars: &[(&str, &str)]) -> SdkConfig {
    let mut s = SdkConfig::new(name.to_string(), String::new(), String::new(), String::new());
    s.extra_vars = vars.iter().map(|(k, v)| (k.to_string(), v.to_string())).collect();
    s
}

#[test]
fn known_keys_are_sorted_and_unique() {
    let sdks = vec![
        sdk_with_vars("java", &[("JAVA_HOME", "{sdk_dir}"), ("EXTRA", "x")]),
        sdk_with_vars("go", &[("GOROOT", "{sdk_dir}"), ("EXTRA", "y")]),
        sdk_with_vars("node", &[]),
    ];
    assert_eq!(known_env_keys(&sdks), vec!["EXTRA".to_string(), "GOROOT".to_string(), "JAVA_HOME".to_string()]);
    assert!(known_env_keys(&vec![]).is_empty());
}

#[test]
fn lines_end_with_newlines() {
    assert_eq!(join_lines(&vec!["a".to_string(), "b".to_string()]), "a\nb\n");
    assert_eq!(join_lines(&vec![]), "");
}

const MARKER: &str = "sdkm hook bash";
const HOOK: &str = "eval \"$(sdkm hook bash)\"";

#[test]
fn hook_line_is_appended_once() {
    match plan_profile_injection("alias ll='ls -l'", MARKER, &vec![], HOOK) {
        ProfileEdit::Appended(c) => {
            assert_eq!(c, "alias ll='ls -l'\n\n# sdkm project-level version hook\neval \"$(sdkm hook bash)\"\n")
        }
        _ => panic!("expected an append"),
    }
    match plan_profile_injection("", MARKER, &vec![], HOOK) {
        ProfileEdit::Appended(c) => assert_eq!(c, "\n# sdkm project-level version hook\neval \"$(sdkm hook bash)\"\n"),
        _ => panic!("expected an append"),
    }
    let registered = "x\n\n# sdkm project-level version hook\neval \"$(sdkm hook bash)\"\n";
    assert!(matches!(plan_profile_injection(registered, MARKER, &vec![], HOOK), ProfileEdit::Unchanged));
}

#[test]
fn legacy_hook_line_is_upgraded() {
    let legacy = vec![("sdkm hook bash | old".to_string(), "sdkm hook bash".to_string())];
    match plan_profile_injection("a\nsdkm hook bash | old\n", MARKER, &legacy, HOOK) {
        ProfileEdit::Upgraded(c) => assert_eq!(c, "a\nsdkm hook bash\n"),
        _ => panic!("expected an upgrade"),
    }
}
