use sdkcore::list::{local_table, InstallStatus, RegisteredSdkItem, RemoteVersionItem};
use sdkcore::tui::{
    centered_title, column_width, index_string, clamp_scroll, find_default_selection, initial_version_cursor, installed_count, local_rows, order_registered_sdks,
    pad_right, pad_status, poll_timeout_ms, remote_rows, remote_selector_title, remote_selector_view, step_sdk_selector,
    step_version_selector, truncate_url, visible_count, window_end, Cursor, InputEvent, KeyInput, SdkSelectorAction,
    SdkSelectorState, SdkSelectorStep, SelectorAction, SelectorKey, SelectorStep, VersionRow,
};

fn key(k: SelectorKey) -> InputEvent {
    InputEvent::Key(KeyInput { key: k, ctrl: false, press: true })
}

fn ch(c: char) -> InputEvent {
    key(SelectorKey::Char(c))
}

fn local(versions: &[&str], active: usize) -> Vec<VersionRow> {
    let vs: Vec<String> = versions.iter().map(|s| s.to_string()).collect();
    let act: Vec<bool> = (0..versions.len()).map(|i| i == active).collect();
    local_rows(&vs, &act)
}

#[test]
fn default_selection_is_the_active_row() {
    assert_eq!(find_default_selection(&[false, true, true]), 1);
    assert_eq!(find_default_selection(&[false, false]), 0);
    assert_eq!(find_default_selection(&[]), 0);
}

#[test]
fn scroll_keeps_selection_visible() {
    assert_eq!(visible_count(3), 3);
    assert_eq!(visible_count(25), 10);
    assert_eq!(clamp_scroll(0, 5, 10), 0);
    assert_eq!(clamp_scroll(14, 0, 10), 5);
    assert_eq!(clamp_scroll(7, 3, 10), 3);
    assert_eq!(window_end(5, 10, 25), (15, 10));
    assert_eq!(window_end(20, 10, 25), (25, 0));
}

#[test]
fn cursor_stays_in_window_while_moving() {
    let names: Vec<String> = (0..15).map(|i| format!("1.{}.0", i)).collect();
    let rows = local_rows(&names, &vec![false; 15]);
    let mut c = initial_version_cursor(&rows, 3);
    assert_eq!(c, Cursor { selected: 0, scroll_offset: 0, tip_idx: 0 });
    for step in 0..20 {
        c = match step_version_selector(c, key(SelectorKey::Down), &rows, 3) {
            SelectorStep::Continue(n) => n,
            SelectorStep::Done(_) => panic!("moving ends nothing"),
        };
        assert!(c.scroll_offset <= c.selected && c.selected < c.scroll_offset + 10);
        assert!(c.selected < 15);
    }
    assert_eq!(c.selected, 14);
    assert_eq!(c.scroll_offset, 5);
    for _ in 0..20 {
        c = match step_version_selector(c, ch('k'), &rows, 3) {
            SelectorStep::Continue(n) => n,
            SelectorStep::Done(_) => panic!("moving ends nothing"),
        };
        assert!(c.scroll_offset <= c.selected && c.selected < c.scroll_offset + 10);
    }
    assert_eq!(c.selected, 0);
    assert_eq!(c.scroll_offset, 0);
}

#[test]
fn initial_cursor_starts_on_active_version() {
    let rows = local(&["21.0.1", "17.0.9", "11.0.2"], 1);
    let c = initial_version_cursor(&rows, 2);
    assert_eq!(c.selected, 1);
}

#[test]
fn enter_switches_installed_version() {
    let rows = local(&["21.0.1", "17.0.9"], 0);
    let c = Cursor { selected: 1, scroll_offset: 0, tip_idx: 0 };
    match step_version_selector(c, key(SelectorKey::Enter), &rows, 2) {
        SelectorStep::Done(SelectorAction::Switch { version }) => assert_eq!(version, "17.0.9"),
        _ => panic!("expected a switch"),
    }
    match step_version_selector(c, key(SelectorKey::Delete), &rows, 2) {
        SelectorStep::Done(SelectorAction::Uninstall { version }) => assert_eq!(version, "17.0.9"),
        _ => panic!("expected an uninstall"),
    }
}

fn remote_item(v: &str, s: InstallStatus) -> RemoteVersionItem {
    RemoteVersionItem { full_version: v.to_string(), feature_version: None, install_status: s, source_url: "https://src".to_string() }
}

#[test]
fn install_only_on_versions_not_installed() {
    let items = vec![remote_item("22.1.0", InstallStatus::NotInstalled), remote_item("21.0.1", InstallStatus::Active)];
    let rows = remote_rows(&items);
    let on_first = Cursor { selected: 0, scroll_offset: 0, tip_idx: 0 };
    match step_version_selector(on_first, ch('i'), &rows, 2) {
        SelectorStep::Done(SelectorAction::Install { version }) => assert_eq!(version, "22.1.0"),
        _ => panic!("expected an install"),
    }
    // Enter on a version not installed changes nothing but the tip.
    match step_version_selector(on_first, key(SelectorKey::Enter), &rows, 2) {
        SelectorStep::Continue(c) => assert_eq!(c, Cursor { selected: 0, scroll_offset: 0, tip_idx: 1 }),
        _ => panic!("expected to go on"),
    }
    let on_active = Cursor { selected: 1, scroll_offset: 0, tip_idx: 1 };
    match step_version_selector(on_active, ch('i'), &rows, 2) {
        SelectorStep::Continue(c) => assert_eq!(c, Cursor { selected: 1, scroll_offset: 0, tip_idx: 0 }),
        _ => panic!("an installed version is not installed again"),
    }
}

#[test]
fn quit_keys_and_released_keys() {
    let rows = local(&["1.0.0"], 0);
    let c = Cursor { selected: 0, scroll_offset: 0, tip_idx: 0 };
    assert!(matches!(step_version_selector(c, ch('q'), &rows, 1), SelectorStep::Done(SelectorAction::Quit)));
    assert!(matches!(step_version_selector(c, key(SelectorKey::Esc), &rows, 1), SelectorStep::Done(SelectorAction::Quit)));
    let ctrl_c = InputEvent::Key(KeyInput { key: SelectorKey::Char('c'), ctrl: true, press: true });
    assert!(matches!(step_version_selector(c, ctrl_c, &rows, 1), SelectorStep::Done(SelectorAction::Quit)));
    let released = InputEvent::Key(KeyInput { key: SelectorKey::Char('q'), ctrl: false, press: false });
    match step_version_selector(c, released, &rows, 1) {
        SelectorStep::Continue(n) => assert_eq!(n, c),
        _ => panic!("a release is ignored"),
    }
    match step_version_selector(c, InputEvent::Timeout, &rows, 3) {
        SelectorStep::Continue(n) => assert_eq!(n.tip_idx, 1),
        _ => panic!("a timeout rotates the tip"),
    }
}

fn sdk(name: &str, installed: bool, current: Option<&str>, url: bool) -> RegisteredSdkItem {
    RegisteredSdkItem { name: name.to_string(), installed, current: current.map(|s| s.to_string()), has_version_url: url }
}

#[test]
fn installed_sdks_come_first_alphabetically() {
    let items = vec![
        sdk("python", false, None, true),
        sdk("Node", true, Some("20.1.0"), true),
        sdk("java", true, Some("21"), true),
        sdk("go", false, None, true),
        sdk("custom", true, None, false),
    ];
    let ordered = order_registered_sdks(items);
    let names: Vec<&str> = ordered.iter().map(|i| i.name.as_str()).collect();
    assert_eq!(names, vec!["custom", "java", "Node", "go", "python"]);
    assert_eq!(installed_count(&ordered), 3);
}

#[test]
fn sdk_selector_browses_or_explains() {
    let rows = vec![sdk("java", true, Some("21"), true), sdk("bare", false, None, false), sdk("go", false, None, true)];
    let st = |sel: usize| SdkSelectorState { cursor: Cursor { selected: sel, scroll_offset: 0, tip_idx: 0 }, msg: String::new() };
    match step_sdk_selector(st(0), key(SelectorKey::Enter), &rows, 2) {
        SdkSelectorStep::Done(SdkSelectorAction::BrowseLocal { sdk }) => assert_eq!(sdk, "java"),
        _ => panic!("expected local browsing"),
    }
    match step_sdk_selector(st(0), ch('r'), &rows, 2) {
        SdkSelectorStep::Done(SdkSelectorAction::BrowseRemote { sdk }) => assert_eq!(sdk, "java"),
        _ => panic!("expected remote browsing"),
    }
    match step_sdk_selector(st(2), key(SelectorKey::Enter), &rows, 2) {
        SdkSelectorStep::Done(SdkSelectorAction::BrowseRemote { sdk }) => assert_eq!(sdk, "go"),
        _ => panic!("expected remote browsing"),
    }
    match step_sdk_selector(st(1), key(SelectorKey::Enter), &rows, 2) {
        SdkSelectorStep::Continue(s) => {
            assert_eq!(s.msg, "bare has no version discovery source, cannot browse remotely");
            assert_eq!(s.cursor.selected, 1);
            assert_eq!(s.cursor.tip_idx, 1);
        }
        _ => panic!("expected a message"),
    }
    match step_sdk_selector(st(1), key(SelectorKey::Down), &rows, 2) {
        SdkSelectorStep::Continue(s) => {
            assert_eq!(s.cursor.selected, 2);
            assert_eq!(s.msg, "");
        }
        _ => panic!("expected a move"),
    }
}

#[test]
fn padding_and_timeouts() {
    assert_eq!(pad_right("ab", 5), "ab   ");
    assert_eq!(pad_right("abcdef", 3), "abcdef");
    assert_eq!(pad_status("✅"), "✅ ");
    assert_eq!(pad_status(" "), "   ");
    assert_eq!(poll_timeout_ms(true), 120);
    assert_eq!(poll_timeout_ms(false), 3000);
}

#[test]
fn urls_are_cut_to_the_terminal() {
    assert_eq!(truncate_url("https://a.b/c", 80), "https://a.b/c");
    assert_eq!(truncate_url("https://example.com/very/long/path", 24), "https://e...");
}

#[test]
fn remote_title_mentions_the_cut() {
    assert_eq!(remote_selector_title(57, 20), "Remote Versions · 57 available · showing 20");
    assert_eq!(remote_selector_title(12, 12), "Remote Versions · 12 available");
    let items = vec![remote_item("22.1.0", InstallStatus::NotInstalled), remote_item("21.0.1", InstallStatus::Installed)];
    let view = remote_selector_view(&items, 30).unwrap();
    assert_eq!(view.title, "Remote Versions · 30 available · showing 2");
    assert_eq!(view.source_url, "https://src");
    assert!(view.rows[1].installed && !view.rows[1].active);
    assert!(remote_selector_view(&vec![], 0).is_none());
}

#[test]
fn table_layout_helpers() {
    assert_eq!(column_width(&vec!["a".to_string(), "日本".to_string()], "x"), 4);
    assert_eq!(column_width(&vec![], "current"), 7);
    assert_eq!(centered_title("abc"), format!("{}abc", " ".repeat(23)));
    assert_eq!(index_string(1), " 1");
    assert_eq!(index_string(12), "12");
    assert_eq!(index_string(123), "123");
}

#[test]
fn installed_sdks_table() {
    let items = vec![
        ("java".to_string(), "21.0.2".to_string(), "518.3 MB".to_string()),
        ("go".to_string(), "N/A".to_string(), "1.0 KB".to_string()),
    ];
    let lines = local_table(&items);
    assert_eq!(lines.len(), 4);
    assert!(lines[0].ends_with("ℹ️  installed sdks"));
    assert!(lines[0].starts_with("     "));
    assert_eq!(lines[1], format!("{}sdk   current  total   ", " ".repeat(7)));
    assert_eq!(lines[2], "✅  1. java  21.0.2   518.3 MB");
    assert_eq!(lines[3], "    2. go    N/A      1.0 KB");
}

#[test]
fn enter_switches_to_the_active_row_and_installs_only_missing_ones() {
    let rows = vec![
        VersionRow { version: "22.0.0".to_string(), active: false, installed: false, not_installed: true },
        VersionRow { version: "20.1.0".to_string(), active: true, installed: true, not_installed: false },
    ];
    let c = initial_version_cursor(&rows, 3);
    assert_eq!(c.selected, 1);
    match step_version_selector(c, key(SelectorKey::Enter), &rows, 3) {
        SelectorStep::Done(SelectorAction::Switch { version }) => assert_eq!(version, "20.1.0"),
        _ => panic!("expected a switch"),
    }
    // installing the installed row does nothing; on the missing row it installs
    let mut c = c;
    let mut done = None;
    for k in [SelectorKey::Char('i'), SelectorKey::Up, SelectorKey::Char('i')] {
        match step_version_selector(c, key(k), &rows, 3) {
            SelectorStep::Continue(n) => c = n,
            SelectorStep::Done(a) => {
                done = Some(a);
                break;
            }
        }
    }
    assert!(matches!(done, Some(SelectorAction::Install { version }) if version == "22.0.0"));
}
