//! Decisions of the interactive selectors: the version selector (local or
//! remote versions of one SDK) and the SDK selector (all registered SDKs).
//!
//! Each selector is a state machine: the terminal loop draws the state, polls
//! for input, and hands the input to a step function, which returns the next
//! state or the action chosen. Drawing and polling happen at the edge of the
//! program.

use vstd::prelude::*;
use crate::config::{name_codes, name_key};
use crate::list::{InstallStatus, RegisteredSdkItem, RemoteVersionItem};
use crate::order::{is_stable_order, is_stable_sort_of, key_order, key_views, stable_sort_by_keys};
use crate::text::{append_str, decimal, decimal_string, lowercase_of, push_char, to_lowercase};
use crate::version::fuzzy::lex_order;
use vstd::string::StringSliceAdditionalSpecFns;
use vstd::utf8::{encode_utf8, is_char_boundary};

verus! {

/// Rows visible at once; longer lists scroll.
pub const MAX_VISIBLE: usize = 10;

/// Display width of the status column.
pub const STATUS_COL_WIDTH: usize = 3;

/// What the version selector ends with.
pub enum SelectorAction {
    Quit,
    Install { version: String },
    Switch { version: String },
    Uninstall { version: String },
}

/// What the SDK selector ends with.
pub enum SdkSelectorAction {
    Quit,
    /// Browse the installed versions of this SDK.
    BrowseLocal { sdk: String },
    /// Browse the remote versions of this SDK.
    BrowseRemote { sdk: String },
}

/// A key the selectors tell apart.
#[derive(Clone, Copy, Debug, PartialEq, Eq, Structural)]
pub enum SelectorKey {
    Up,
    Down,
    Enter,
    Delete,
    Esc,
    Char(char),
    Other,
}

/// A key event: the key, whether Ctrl was held, and whether it is a press
/// (rather than a release or repeat).
#[derive(Clone, Copy, Debug, PartialEq, Eq, Structural)]
pub struct KeyInput {
    pub key: SelectorKey,
    pub ctrl: bool,
    pub press: bool,
}

/// What one poll of the terminal returned.
#[derive(Clone, Copy, Debug, PartialEq, Eq, Structural)]
pub enum InputEvent {
    /// Nothing happened before the poll timed out.
    Timeout,
    Key(KeyInput),
    /// Another event (resize, mouse).
    Other,
}

/// What a key asks for.
#[derive(Clone, Copy, Debug, PartialEq, Eq, Structural)]
pub enum Command {
    Quit,
    Up,
    Down,
    /// Enter: switch to (versions) or browse (SDKs) the selected row.
    Open,
    /// `s`: switch to the selected version.
    Switch,
    /// `i`: install the selected version.
    Install,
    /// Delete or `d`: uninstall the selected version.
    Uninstall,
    /// `r`: browse the remote versions of the selected SDK.
    Remote,
    Nothing,
}

/// Keys common to both selectors: Ctrl+C, Esc and `q` quit; arrows and
/// `k`/`j` move; Enter opens.
pub open spec fn common_command(k: KeyInput) -> Command {
    if k.ctrl && k.key == SelectorKey::Char('c') {
        Command::Quit
    } else {
        match k.key {
            SelectorKey::Up => Command::Up,
            SelectorKey::Char('k') => Command::Up,
            SelectorKey::Down => Command::Down,
            SelectorKey::Char('j') => Command::Down,
            SelectorKey::Enter => Command::Open,
            SelectorKey::Esc => Command::Quit,
            SelectorKey::Char('q') => Command::Quit,
            _ => Command::Nothing,
        }
    }
}

/// The command of a key in the version selector: `s` switches, `i`
/// installs, Delete and `d` uninstall.
pub open spec fn version_command(k: KeyInput) -> Command {
    let c = common_command(k);
    if c != Command::Nothing {
        c
    } else {
        match k.key {
            SelectorKey::Char('s') => Command::Switch,
            SelectorKey::Char('i') => Command::Install,
            SelectorKey::Delete => Command::Uninstall,
            SelectorKey::Char('d') => Command::Uninstall,
            _ => Command::Nothing,
        }
    }
}

/// The command of a key in the SDK selector: `r` browses remotely.
pub open spec fn sdk_command(k: KeyInput) -> Command {
    let c = common_command(k);
    if c != Command::Nothing {
        c
    } else if k.key == SelectorKey::Char('r') {
        Command::Remote
    } else {
        Command::Nothing
    }
}

fn common_command_exec(k: KeyInput) -> (c: Command)
    ensures
        c == common_command(k),
{
    if k.ctrl && k.key == SelectorKey::Char('c') {
        return Command::Quit;
    }
    match k.key {
        SelectorKey::Up => Command::Up,
        SelectorKey::Char('k') => Command::Up,
        SelectorKey::Down => Command::Down,
        SelectorKey::Char('j') => Command::Down,
        SelectorKey::Enter => Command::Open,
        SelectorKey::Esc => Command::Quit,
        SelectorKey::Char('q') => Command::Quit,
        _ => Command::Nothing,
    }
}

/// The command of a key in the version selector.
pub fn version_command_exec(k: KeyInput) -> (c: Command)
    ensures
        c == version_command(k),
{
    let c = common_command_exec(k);
    if c != Command::Nothing {
        return c;
    }
    match k.key {
        SelectorKey::Char('s') => Command::Switch,
        SelectorKey::Char('i') => Command::Install,
        SelectorKey::Delete => Command::Uninstall,
        SelectorKey::Char('d') => Command::Uninstall,
        _ => Command::Nothing,
    }
}

/// The command of a key in the SDK selector.
pub fn sdk_command_exec(k: KeyInput) -> (c: Command)
    ensures
        c == sdk_command(k),
{
    let c = common_command_exec(k);
    if c != Command::Nothing {
        return c;
    }
    if k.key == SelectorKey::Char('r') {
        Command::Remote
    } else {
        Command::Nothing
    }
}

// ───────────────────────── window and cursor ─────────────────────────

/// Rows shown at once for a list of `total` rows.
pub open spec fn visible_rows(total: nat) -> nat {
    if total < MAX_VISIBLE {
        total
    } else {
        MAX_VISIBLE as nat
    }
}

/// The scroll offset that keeps `selected` inside a window of `visible`
/// rows, moving the window as little as possible.
pub open spec fn clamp_scroll_spec(selected: nat, scroll: nat, visible: nat) -> nat {
    if selected < scroll {
        selected
    } else if selected >= scroll + visible {
        (selected - visible + 1) as nat
    } else {
        scroll
    }
}

/// The cursor of a selector: the selected row, the first row shown, and the
/// tip shown at the bottom.
#[derive(Clone, Copy, Debug, PartialEq, Eq, Structural)]
pub struct Cursor {
    pub selected: usize,
    pub scroll_offset: usize,
    pub tip_idx: usize,
}

/// A cursor over `total` rows and `tips` tips: the selected row is a row,
/// inside the window of rows shown.
pub open spec fn cursor_wf(c: Cursor, total: nat, tips: nat) -> bool {
    &&& c.selected < total
    &&& c.scroll_offset <= c.selected < c.scroll_offset + visible_rows(total)
    &&& c.tip_idx < tips
}

/// The selected row after a move: up stops at the first row, down at the last.
pub open spec fn moved(selected: nat, cmd: Command, total: nat) -> nat {
    if cmd == Command::Up {
        if selected > 0 { (selected - 1) as nat } else { 0 }
    } else if cmd == Command::Down {
        if selected + 1 < total { selected + 1 } else { selected }
    } else {
        selected
    }
}

/// The cursor after a command that ends no selector: moved, window kept
/// around the selection, next tip.
pub open spec fn advanced(c: Cursor, cmd: Command, total: nat, tips: nat) -> Cursor {
    let sel = moved(c.selected as nat, cmd, total);
    Cursor {
        selected: sel as usize,
        scroll_offset: clamp_scroll_spec(sel, c.scroll_offset as nat, visible_rows(total)) as usize,
        tip_idx: ((c.tip_idx + 1) % (tips as int)) as usize,
    }
}

/// Rows shown at once for a list of `total` rows.
pub fn visible_count(total: usize) -> (v: usize)
    ensures
        v == visible_rows(total as nat),
{
    if total < MAX_VISIBLE {
        total
    } else {
        MAX_VISIBLE
    }
}

/// The scroll offset that keeps `selected` in view.
pub fn clamp_scroll(selected: usize, scroll_offset: usize, visible: usize) -> (r: usize)
    requires
        visible > 0,
    ensures
        r == clamp_scroll_spec(selected as nat, scroll_offset as nat, visible as nat),
        r <= selected < r + visible,
{
    if selected < scroll_offset {
        selected
    } else if selected - scroll_offset >= visible {
        selected - visible + 1
    } else {
        scroll_offset
    }
}

/// The end (exclusive) of the rows shown from `scroll_offset`, and how many
/// rows are hidden below.
pub fn window_end(scroll_offset: usize, visible: usize, total: usize) -> (r: (usize, usize))
    requires
        scroll_offset <= total,
    ensures
        r.0 == (if scroll_offset + visible < total { scroll_offset + visible } else { total as int }),
        r.1 == total - r.0,
{
    let end = if total - scroll_offset > visible { scroll_offset + visible } else { total };
    (end, total - end)
}

fn advance(c: Cursor, cmd: Command, total: usize, tips: usize) -> (r: Cursor)
    requires
        cursor_wf(c, total as nat, tips as nat),
        tips > 0,
    ensures
        r == advanced(c, cmd, total as nat, tips as nat),
        cursor_wf(r, total as nat, tips as nat),
{
    let sel = if cmd == Command::Up {
        if c.selected > 0 { c.selected - 1 } else { 0 }
    } else if cmd == Command::Down {
        if c.selected + 1 < total { c.selected + 1 } else { c.selected }
    } else {
        c.selected
    };
    let visible = visible_count(total);
    let scroll = clamp_scroll(sel, c.scroll_offset, visible);
    Cursor { selected: sel, scroll_offset: scroll, tip_idx: (c.tip_idx + 1) % tips }
}

/// The first active row, or the first row when none is active.
pub fn find_default_selection(is_active: &[bool]) -> (r: usize)
    ensures
        (r < is_active@.len() && is_active@[r as int] && forall|j: int| 0 <= j < r ==> !is_active@[j])
            || (r == 0 && forall|j: int| 0 <= j < is_active@.len() ==> !is_active@[j]),
{
    let mut i: usize = 0;
    while i < is_active.len()
        invariant
            i <= is_active@.len(),
            forall|j: int| 0 <= j < i ==> !is_active@[j],
        decreases is_active.len() - i,
    {
        if is_active[i] {
            return i;
        }
        i = i + 1;
    }
    0
}

// ───────────────────────── version selector ─────────────────────────

/// A row of the version selector.
pub struct VersionRow {
    pub version: String,
    /// The active version (marked as such).
    pub active: bool,
    /// Installed locally (switch and uninstall possible).
    pub installed: bool,
    /// Not installed (install possible).
    pub not_installed: bool,
}

/// The rows of a local version list: all installed, `active` marking the
/// active one.
pub fn local_rows(versions: &Vec<String>, active: &Vec<bool>) -> (r: Vec<VersionRow>)
    requires
        versions@.len() == active@.len(),
    ensures
        r@.len() == versions@.len(),
        forall|i: int| 0 <= i < r@.len() ==> {
            &&& (#[trigger] r@[i]).version@ == versions@[i]@
            &&& r@[i].active == active@[i]
            &&& r@[i].installed
            &&& !r@[i].not_installed
        },
{
    let mut r: Vec<VersionRow> = Vec::new();
    let mut i: usize = 0;
    while i < versions.len()
        invariant
            versions@.len() == active@.len(),
            i <= versions@.len(),
            r@.len() == i,
            forall|k: int| 0 <= k < i ==> {
                &&& (#[trigger] r@[k]).version@ == versions@[k]@
                &&& r@[k].active == active@[k]
                &&& r@[k].installed
                &&& !r@[k].not_installed
            },
        decreases versions.len() - i,
    {
        r.push(VersionRow { version: versions[i].clone(), active: active[i], installed: true, not_installed: false });
        i = i + 1;
    }
    r
}

/// The rows of a remote version list: active and installed versions count as
/// installed.
pub fn remote_rows(items: &Vec<RemoteVersionItem>) -> (r: Vec<VersionRow>)
    ensures
        r@.len() == items@.len(),
        forall|i: int| 0 <= i < r@.len() ==> {
            &&& (#[trigger] r@[i]).version@ == items@[i].full_version@
            &&& r@[i].active == (items@[i].install_status == InstallStatus::Active)
            &&& r@[i].installed == (items@[i].install_status != InstallStatus::NotInstalled)
            &&& r@[i].not_installed == (items@[i].install_status == InstallStatus::NotInstalled)
        },
{
    let mut r: Vec<VersionRow> = Vec::new();
    let mut i: usize = 0;
    while i < items.len()
        invariant
            i <= items@.len(),
            r@.len() == i,
            forall|k: int| 0 <= k < i ==> {
                &&& (#[trigger] r@[k]).version@ == items@[k].full_version@
                &&& r@[k].active == (items@[k].install_status == InstallStatus::Active)
                &&& r@[k].installed == (items@[k].install_status != InstallStatus::NotInstalled)
                &&& r@[k].not_installed == (items@[k].install_status == InstallStatus::NotInstalled)
            },
        decreases items.len() - i,
    {
        let s = items[i].install_status;
        r.push(VersionRow {
            version: items[i].full_version.clone(),
            active: s == InstallStatus::Active,
            installed: s != InstallStatus::NotInstalled,
            not_installed: s == InstallStatus::NotInstalled,
        });
        i = i + 1;
    }
    r
}

/// The first cursor of the version selector: on the active version (else the
/// first), first tip.
pub fn initial_version_cursor(rows: &Vec<VersionRow>, tips: usize) -> (c: Cursor)
    requires
        rows@.len() > 0,
        tips > 0,
    ensures
        cursor_wf(c, rows@.len(), tips as nat),
        c.tip_idx == 0,
        (rows@[c.selected as int].active && forall|j: int| 0 <= j < c.selected ==> !rows@[j].active)
            || (c.selected == 0 && forall|j: int| 0 <= j < rows@.len() ==> !rows@[j].active),
{
    let mut flags: Vec<bool> = Vec::new();
    let mut i: usize = 0;
    while i < rows.len()
        invariant
            i <= rows@.len(),
            flags@.len() == i,
            forall|k: int| 0 <= k < i ==> flags@[k] == rows@[k].active,
        decreases rows.len() - i,
    {
        flags.push(rows[i].active);
        i = i + 1;
    }
    assert(flags@.len() == rows@.len());
    assert(forall|j: int| 0 <= j < rows@.len() ==> flags@[j] == rows@[j].active);
    let selected = find_default_selection(flags.as_slice());
    proof {
        if selected < flags@.len() && flags@[selected as int] && forall|j: int| 0 <= j < selected ==> !flags@[j] {
            assert forall|j: int| 0 <= j < selected implies !rows@[j].active by {
                assert(!flags@[j]);
            }
        } else {
            assert forall|j: int| 0 <= j < rows@.len() implies !rows@[j].active by {
                assert(!flags@[j]);
            }
        }
    }
    let visible = visible_count(rows.len());
    let scroll = clamp_scroll(selected, 0, visible);
    Cursor { selected, scroll_offset: scroll, tip_idx: 0 }
}

/// A step of the version selector.
pub enum SelectorStep {
    Continue(Cursor),
    Done(SelectorAction),
}

/// The action kind a version-selector command ends with on a row, if any:
/// switching and uninstalling need an installed (or active) row, installing
/// a row not installed.
pub open spec fn version_outcome(cmd: Command, row: VersionRow) -> Option<Command> {
    if cmd == Command::Quit {
        Some(Command::Quit)
    } else if (cmd == Command::Open || cmd == Command::Switch) && (row.installed || row.active) {
        Some(Command::Switch)
    } else if cmd == Command::Install && row.not_installed {
        Some(Command::Install)
    } else if cmd == Command::Uninstall && (row.installed || row.active) {
        Some(Command::Uninstall)
    } else {
        None
    }
}

/// `a` is the action of kind `k` on a row with version `version`.
pub open spec fn is_version_action(a: SelectorAction, k: Command, version: Seq<char>) -> bool {
    match a {
        SelectorAction::Quit => k == Command::Quit,
        SelectorAction::Install { version: v } => k == Command::Install && v@ == version,
        SelectorAction::Switch { version: v } => k == Command::Switch && v@ == version,
        SelectorAction::Uninstall { version: v } => k == Command::Uninstall && v@ == version,
    }
}

/// The command an input carries in the version selector (`None` for a key
/// that is not a press, which leaves everything as it is).
pub open spec fn version_input(ev: InputEvent) -> Option<Command> {
    match ev {
        InputEvent::Key(k) => if k.press { Some(version_command(k)) } else { None },
        _ => Some(Command::Nothing),
    }
}

/// Moving the cursor keeps it well formed.
proof fn lemma_advanced_wf(c: Cursor, cmd: Command, total: nat, tips: nat)
    requires
        cursor_wf(c, total, tips),
        tips > 0,
        total <= usize::MAX,
        tips <= usize::MAX,
    ensures
        cursor_wf(advanced(c, cmd, total, tips), total, tips),
{
    let sel = moved(c.selected as nat, cmd, total);
    let v = visible_rows(total);
    assert(v > 0);
    let sc = clamp_scroll_spec(sel, c.scroll_offset as nat, v);
    assert(sc <= sel < sc + v);
    assert(sel < total);
    let t = ((c.tip_idx + 1) % (tips as int));
    assert(0 <= t < tips);
}

/// Where a run of the version selector over a sequence of inputs ends: the
/// kind of action and the row it acts on, or `None` when the inputs run out
/// first.
pub open spec fn version_run(c: Cursor, evs: Seq<InputEvent>, rows: Seq<VersionRow>, tips: nat) -> Option<(Command, int)>
    decreases evs.len(),
{
    if evs.len() == 0 {
        None
    } else {
        match version_input(evs[0]) {
            None => version_run(c, evs.drop_first(), rows, tips),
            Some(cmd) => match version_outcome(cmd, rows[c.selected as int]) {
                Some(k) => Some((k, c.selected as int)),
                None => version_run(advanced(c, cmd, rows.len(), tips), evs.drop_first(), rows, tips),
            },
        }
    }
}

/// Whatever keys are pressed, a run of the version selector only switches to
/// or uninstalls an installed (or active) row, and only installs a row that
/// is not installed. A single Enter on the active row (where
/// `initial_version_cursor` starts when there is one) switches to it.
pub proof fn lemma_version_run_fits_rows(c: Cursor, evs: Seq<InputEvent>, rows: Seq<VersionRow>, tips: nat)
    requires
        cursor_wf(c, rows.len(), tips),
        tips > 0,
        rows.len() <= usize::MAX,
        tips <= usize::MAX,
    ensures
        version_run(c, evs, rows, tips) matches Some((k, i)) ==> {
            &&& 0 <= i < rows.len()
            &&& (k == Command::Switch || k == Command::Uninstall) ==> rows[i].installed || rows[i].active
            &&& k == Command::Install ==> rows[i].not_installed
        },
        evs == seq![InputEvent::Key(KeyInput { key: SelectorKey::Enter, ctrl: false, press: true })]
            && rows[c.selected as int].active ==> version_run(c, evs, rows, tips) == Some((Command::Switch, c.selected as int)),
    decreases evs.len(),
{
    let enter = InputEvent::Key(KeyInput { key: SelectorKey::Enter, ctrl: false, press: true });
    assert(version_input(enter) == Some(Command::Open));
    if evs.len() > 0 {
        match version_input(evs[0]) {
            None => lemma_version_run_fits_rows(c, evs.drop_first(), rows, tips),
            Some(cmd) => match version_outcome(cmd, rows[c.selected as int]) {
                Some(k) => {},
                None => {
                    lemma_advanced_wf(c, cmd, rows.len(), tips);
                    lemma_version_run_fits_rows(advanced(c, cmd, rows.len(), tips), evs.drop_first(), rows, tips);
                },
            },
        }
    }
}

/// One step of the version selector: a key that is not a press changes
/// nothing; a command that selects an action on the selected row ends the
/// selector with it; anything else moves the cursor and shows the next tip.
pub fn step_version_selector(c: Cursor, ev: InputEvent, rows: &Vec<VersionRow>, tips: usize) -> (r: SelectorStep)
    requires
        tips > 0,
        cursor_wf(c, rows@.len(), tips as nat),
    ensures
        match version_input(ev) {
            None => r == SelectorStep::Continue(c),
            Some(cmd) => match version_outcome(cmd, rows@[c.selected as int]) {
                Some(k) => (r matches SelectorStep::Done(a) && is_version_action(
                    a,
                    k,
                    rows@[c.selected as int].version@,
                )),
                None => r == SelectorStep::Continue(advanced(c, cmd, rows@.len(), tips as nat)),
            },
        },
        r matches SelectorStep::Continue(n) ==> cursor_wf(n, rows@.len(), tips as nat),
{
    let cmd = match ev {
        InputEvent::Key(k) => {
            if !k.press {
                return SelectorStep::Continue(c);
            }
            version_command_exec(k)
        },
        _ => Command::Nothing,
    };
    let row = &rows[c.selected];
    if cmd == Command::Quit {
        return SelectorStep::Done(SelectorAction::Quit);
    }
    if (cmd == Command::Open || cmd == Command::Switch) && (row.installed || row.active) {
        return SelectorStep::Done(SelectorAction::Switch { version: row.version.clone() });
    }
    if cmd == Command::Install && row.not_installed {
        return SelectorStep::Done(SelectorAction::Install { version: row.version.clone() });
    }
    if cmd == Command::Uninstall && (row.installed || row.active) {
        return SelectorStep::Done(SelectorAction::Uninstall { version: row.version.clone() });
    }
    SelectorStep::Continue(advance(c, cmd, rows.len(), tips))
}

// ───────────────────────── SDK selector ─────────────────────────

/// Sort key of a registered SDK: installed ones first, then by lower-cased name.
pub open spec fn sdk_row_key(item: RegisteredSdkItem) -> Seq<u32> {
    seq![if item.installed { 0u32 } else { 1u32 }] + name_codes(lowercase_of(item.name@))
}

/// The sort keys of registered SDKs.
pub open spec fn sdk_row_keys(items: Seq<RegisteredSdkItem>) -> Seq<Seq<u32>> {
    items.map_values(|i: RegisteredSdkItem| sdk_row_key(i))
}

proof fn lemma_group_order(a: Seq<u32>, b: Seq<u32>)
    requires
        a.len() > 0,
        b.len() > 0,
        a[0] > b[0],
    ensures
        lex_order(a, b) == 1,
{
}

/// Orders registered SDKs for the selector: installed ones first, each group
/// alphabetically by lower-cased name, equal names in their given order.
pub fn order_registered_sdks(items: Vec<RegisteredSdkItem>) -> (r: Vec<RegisteredSdkItem>)
    ensures
        is_stable_sort_of(r@, items@, sdk_row_keys(items@), false),
        forall|i: int, j: int| 0 <= i < j < r@.len() && (#[trigger] r@[j]).installed ==> (#[trigger] r@[i]).installed,
{
    let mut keys: Vec<Vec<u32>> = Vec::new();
    let mut i: usize = 0;
    while i < items.len()
        invariant
            i <= items@.len(),
            keys@.len() == i,
            forall|k: int| 0 <= k < i ==> (#[trigger] keys@[k])@ == sdk_row_key(items@[k]),
        decreases items.len() - i,
    {
        let lower = to_lowercase(items[i].name.as_str());
        let codes = name_key(lower.as_str());
        let mut key: Vec<u32> = Vec::new();
        key.push(if items[i].installed { 0u32 } else { 1u32 });
        let mut j: usize = 0;
        while j < codes.len()
            invariant
                j <= codes@.len(),
                key@ == seq![if items@[i as int].installed { 0u32 } else { 1u32 }] + codes@.take(j as int),
            decreases codes.len() - j,
        {
            key.push(codes[j]);
            j = j + 1;
            assert(key@ =~= seq![if items@[i as int].installed { 0u32 } else { 1u32 }] + codes@.take(j as int));
        }
        assert(codes@.take(codes@.len() as int) =~= codes@);
        keys.push(key);
        i = i + 1;
    }
    let ghost orig = items@;
    let ghost ks = key_views(keys@);
    assert(ks =~= sdk_row_keys(orig)) by {
        assert forall|k: int| 0 <= k < ks.len() implies ks[k] == sdk_row_keys(orig)[k] by {
            assert(ks[k] == keys@[k]@);
        }
    }
    let r = stable_sort_by_keys(items, keys, false);
    proof {
        let p = choose|p: Seq<int>| #[trigger] is_stable_order(ks, p, false) && forall|i: int| 0 <= i < r@.len() ==> r@[i] == orig[#[trigger] p[i]];
        assert forall|i: int, j: int| 0 <= i < j < r@.len() && (#[trigger] r@[j]).installed implies (#[trigger] r@[i]).installed by {
            assert(r@[i] == orig[p[i]]);
            assert(r@[j] == orig[p[j]]);
            let o = key_order(ks[p[i]], ks[p[j]], false);
            assert(o <= 0);
            if !r@[i].installed {
                assert(ks[p[i]] == sdk_row_key(orig[p[i]]));
                assert(ks[p[j]] == sdk_row_key(orig[p[j]]));
                lemma_group_order(ks[p[i]], ks[p[j]]);
            }
        }
    }
    r
}

/// The cursor of the SDK selector and the message shown at its bottom.
pub struct SdkSelectorState {
    pub cursor: Cursor,
    /// Feedback of the last command (empty: none).
    pub msg: String,
}

/// A step of the SDK selector.
pub enum SdkSelectorStep {
    Continue(SdkSelectorState),
    Done(SdkSelectorAction),
}

/// The message for an SDK that cannot be browsed remotely.
pub open spec fn no_source_msg(name: Seq<char>) -> Seq<char> {
    name + " has no version discovery source, cannot browse remotely"@
}

/// The command an input carries in the SDK selector (`None`: not a press).
pub open spec fn sdk_input(ev: InputEvent) -> Option<Command> {
    match ev {
        InputEvent::Key(k) => if k.press { Some(sdk_command(k)) } else { None },
        _ => Some(Command::Nothing),
    }
}

/// One step of the SDK selector: quitting ends it; Enter on an installed SDK
/// browses its local versions, on another its remote versions when it has a
/// version source; `r` browses remote versions when there is a source;
/// without one, the message says so and the selector goes on.
pub fn step_sdk_selector(s: SdkSelectorState, ev: InputEvent, rows: &Vec<RegisteredSdkItem>, tips: usize) -> (r:
    SdkSelectorStep)
    requires
        tips > 0,
        cursor_wf(s.cursor, rows@.len(), tips as nat),
    ensures
        ({
            let row = rows@[s.cursor.selected as int];
            match sdk_input(ev) {
                None => r == SdkSelectorStep::Continue(s),
                Some(cmd) => if cmd == Command::Quit {
                    r matches SdkSelectorStep::Done(SdkSelectorAction::Quit)
                } else if cmd == Command::Open && row.installed {
                    r matches SdkSelectorStep::Done(SdkSelectorAction::BrowseLocal { sdk }) && sdk@ == row.name@
                } else if (cmd == Command::Open || cmd == Command::Remote) && row.has_version_url {
                    r matches SdkSelectorStep::Done(SdkSelectorAction::BrowseRemote { sdk }) && sdk@ == row.name@
                } else if cmd == Command::Open || cmd == Command::Remote {
                    r matches SdkSelectorStep::Continue(n) && n.cursor == advanced(
                        s.cursor,
                        cmd,
                        rows@.len(),
                        tips as nat,
                    ) && n.msg@ == no_source_msg(row.name@)
                } else {
                    r matches SdkSelectorStep::Continue(n) && n.cursor == advanced(
                        s.cursor,
                        cmd,
                        rows@.len(),
                        tips as nat,
                    ) && n.msg@ == s.msg@
                },
            }
        }),
        r matches SdkSelectorStep::Continue(n) ==> cursor_wf(n.cursor, rows@.len(), tips as nat),
{
    let cmd = match ev {
        InputEvent::Key(k) => {
            if !k.press {
                return SdkSelectorStep::Continue(s);
            }
            sdk_command_exec(k)
        },
        _ => Command::Nothing,
    };
    let row = &rows[s.cursor.selected];
    if cmd == Command::Quit {
        return SdkSelectorStep::Done(SdkSelectorAction::Quit);
    }
    if cmd == Command::Open && row.installed {
        return SdkSelectorStep::Done(SdkSelectorAction::BrowseLocal { sdk: row.name.clone() });
    }
    let browse = cmd == Command::Open || cmd == Command::Remote;
    if browse && row.has_version_url {
        return SdkSelectorStep::Done(SdkSelectorAction::BrowseRemote { sdk: row.name.clone() });
    }
    let msg = if browse {
        let mut m = row.name.clone();
        append_str(&mut m, " has no version discovery source, cannot browse remotely");
        m
    } else {
        s.msg
    };
    SdkSelectorStep::Continue(SdkSelectorState { cursor: advance(s.cursor, cmd, rows.len(), tips), msg })
}

/// The number of installed SDKs in a list.
pub open spec fn count_installed(s: Seq<RegisteredSdkItem>) -> nat
    decreases s.len(),
{
    if s.len() == 0 {
        0
    } else {
        count_installed(s.drop_last()) + if s.last().installed { 1nat } else { 0nat }
    }
}

/// The number of installed SDKs, which come first in the selector (the
/// divider is drawn before the first SDK not installed).
pub fn installed_count(rows: &Vec<RegisteredSdkItem>) -> (n: usize)
    ensures
        n == count_installed(rows@),
{
    let mut n: usize = 0;
    let mut k: usize = 0;
    while k < rows.len()
        invariant
            k <= rows@.len(),
            n == count_installed(rows@.take(k as int)),
            n <= k,
        decreases rows.len() - k,
    {
        assert(rows@.take(k + 1).drop_last() =~= rows@.take(k as int));
        if rows[k].installed {
            n = n + 1;
        }
        k = k + 1;
    }
    assert(rows@.take(rows@.len() as int) =~= rows@);
    n
}

// ───────────────────────── drawing helpers ─────────────────────────

/// The poll timeout in milliseconds: short while sizes are still being
/// computed (so they show up soon), else three seconds (tip rotation only).
pub fn poll_timeout_ms(pending: bool) -> (ms: u64)
    ensures
        ms == if pending { 120u64 } else { 3000u64 },
{
    if pending { 120 } else { 3000 }
}

/// What `UnicodeWidthStr::width` returns for a text: its display width in
/// terminal columns.
pub uninterp spec fn unicode_width_of(s: Seq<char>) -> nat;

/// The display width of a text.
///
/// Trusted: calls `unicode_width::UnicodeWidthStr::width`; its result is
/// taken to be `unicode_width_of` of the text (the crate's width tables are
/// not written out here).
#[verifier::external_body]
pub(crate) fn display_width(s: &str) -> (w: usize)
    ensures
        w == unicode_width_of(s@),
{
    unicode_width::UnicodeWidthStr::width(s)
}

/// `n` spaces.
pub open spec fn spaces(n: nat) -> Seq<char> {
    Seq::new(n, |i: int| ' ')
}

pub(crate) fn push_spaces(s: &mut String, n: usize)
    ensures
        final(s)@ == old(s)@ + spaces(n as nat),
{
    let mut i: usize = 0;
    while i < n
        invariant
            i <= n,
            s@ == old(s)@ + spaces(i as nat),
        decreases n - i,
    {
        push_char(s, ' ');
        i = i + 1;
        assert(s@ =~= old(s)@ + spaces(i as nat));
    }
}

/// `s` padded with spaces to `width` display columns.
pub open spec fn padded(s: Seq<char>, width: nat) -> Seq<char> {
    s + spaces(if unicode_width_of(s) < width { (width - unicode_width_of(s)) as nat } else { 0 })
}

/// Pads `s` with spaces to `width` display columns (no padding when it is
/// already as wide).
pub fn pad_right(s: &str, width: usize) -> (r: String)
    ensures
        r@ == s@ + spaces(if unicode_width_of(s@) < width { (width - unicode_width_of(s@)) as nat } else { 0 }),
        r@ == padded(s@, width as nat),
{
    let w = display_width(s);
    let pad = if w < width { width - w } else { 0 };
    let mut r = String::from_str(s);
    push_spaces(&mut r, pad);
    r
}

/// Width of the divider lines that frame the tables, in characters.
pub const DIVIDER_WIDTH: usize = 50;

/// The largest display width among the cells and the header.
pub open spec fn column_width_of(cells: Seq<Seq<char>>, header: Seq<char>) -> nat
    decreases cells.len(),
{
    if cells.len() == 0 {
        unicode_width_of(header)
    } else {
        let w = column_width_of(cells.drop_last(), header);
        let c = unicode_width_of(cells.last());
        if c > w { c } else { w }
    }
}

/// The texts of strings.
pub open spec fn texts(v: Seq<String>) -> Seq<Seq<char>> {
    v.map_values(|c: String| c@)
}

/// The display width of a table column: that of its widest cell, or of its
/// header when that is wider.
pub fn column_width(cells: &Vec<String>, header: &str) -> (w: usize)
    ensures
        w == column_width_of(texts(cells@), header@),
{
    let mut w = display_width(header);
    let mut i: usize = 0;
    while i < cells.len()
        invariant
            i <= cells@.len(),
            w == column_width_of(texts(cells@.take(i as int)), header@),
        decreases cells.len() - i,
    {
        let c = display_width(cells[i].as_str());
        proof {
            let t = texts(cells@.take(i + 1));
            assert(t.drop_last() =~= texts(cells@.take(i as int)));
            assert(t.last() == cells@[i as int]@);
        }
        if c > w {
            w = c;
        }
        i = i + 1;
    }
    proof {
        assert(cells@.take(cells@.len() as int) =~= cells@);
    }
    w
}

/// The left padding that centres a title over the divider; the title's
/// display width is counted one more, for the emoji it starts with.
pub open spec fn title_pad_of(title: Seq<char>) -> nat {
    let w = unicode_width_of(title) + 1;
    if w >= DIVIDER_WIDTH { 0 } else { ((DIVIDER_WIDTH - w) / 2) as nat }
}

/// A title centred over the divider.
pub fn centered_title(title: &str) -> (r: String)
    ensures
        r@ == spaces(title_pad_of(title@)) + title@,
{
    let w = display_width(title);
    let pad: usize = if w >= DIVIDER_WIDTH - 1 { 0 } else { (DIVIDER_WIDTH - w - 1) / 2 };
    let mut r = String::new();
    push_spaces(&mut r, pad);
    append_str(&mut r, title);
    r
}

/// A row number right-aligned to two columns.
pub open spec fn index_text(n: nat) -> Seq<char> {
    if n < 10 { seq![' '] + decimal(n) } else { decimal(n) }
}

/// A row number right-aligned to two columns.
pub fn index_string(n: u64) -> (r: String)
    ensures
        r@ == index_text(n as nat),
{
    let d = decimal_string(n);
    if n < 10 {
        let mut r = String::from_str(" ");
        append_str(&mut r, d.as_str());
        proof {
            reveal_strlit(" ");
            assert(r@ =~= seq![' '] + decimal(n as nat));
        }
        r
    } else {
        d
    }
}

/// Pads a status mark to the status column width.
pub fn pad_status(mark: &str) -> (r: String)
    ensures
        r@ == mark@ + spaces(
            if unicode_width_of(mark@) < STATUS_COL_WIDTH { (STATUS_COL_WIDTH - unicode_width_of(mark@)) as nat } else { 0 },
        ),
{
    pad_right(mark, STATUS_COL_WIDTH)
}

/// Where a URL too long for a line of `max` bytes is cut: three bytes are
/// left for `...`.
pub open spec fn url_cut(max: int) -> int {
    if max >= 3 { max - 3 } else { 0 }
}

/// `r` is `url` fitted to `max` bytes: the URL itself when it fits, else its
/// first `url_cut(max)` bytes followed by `...`.
pub open spec fn is_fitted_url(r: Seq<char>, url: Seq<char>, max: int) -> bool {
    if encode_utf8(url).len() <= max {
        r == url
    } else {
        exists|h: Seq<char>| r == h + "..."@ && #[trigger] encode_utf8(h) == encode_utf8(url).subrange(0, url_cut(max))
    }
}

/// Shortens a source URL to fit a terminal of `max_cols` columns (12 of
/// which are taken by the line's prefix and margin): a URL that does not fit
/// is cut and ends in `...`.
pub fn truncate_url(url: &str, max_cols: u16) -> (r: String)
    requires
        max_cols >= 12,
        encode_utf8(url@).len() <= usize::MAX,
        encode_utf8(url@).len() > max_cols - 12 ==> is_char_boundary(encode_utf8(url@), url_cut(max_cols - 12)),
    ensures
        is_fitted_url(r@, url@, max_cols - 12),
{
    let max: usize = max_cols as usize - 12;
    proof {
        assert(url.spec_bytes() == encode_utf8(url@));
    }
    if url.len() <= max {
        String::from_str(url)
    } else {
        let cut: usize = if max >= 3 { max - 3 } else { 0 };
        let (head, _) = url.split_at(cut);
        assert(head.spec_bytes() == encode_utf8(head@));
        assert(encode_utf8(head@) == encode_utf8(url@).subrange(0, cut as int));
        let mut r = String::from_str(head);
        append_str(&mut r, "...");
        assert(r@ == head@ + "..."@);
        r
    }
}

/// The title of the remote version selector: how many versions are
/// available, and how many are shown when the list was cut.
pub fn remote_selector_title(total_count: usize, shown: usize) -> (t: String)
    ensures
        t@ == if total_count > shown {
            "Remote Versions · "@ + decimal(total_count as nat) + " available · showing "@ + decimal(shown as nat)
        } else {
            "Remote Versions · "@ + decimal(total_count as nat) + " available"@
        },
{
    let mut t = String::from_str("Remote Versions · ");
    let n = decimal_string(total_count as u64);
    append_str(&mut t, n.as_str());
    if total_count > shown {
        append_str(&mut t, " available · showing ");
        let m = decimal_string(shown as u64);
        append_str(&mut t, m.as_str());
    } else {
        append_str(&mut t, " available");
    }
    t
}

/// What the remote version selector starts from: the rows of the list, its
/// title, and its source URL (`N/A` for an empty list, which has no
/// selector).
pub struct RemoteSelectorView {
    pub rows: Vec<VersionRow>,
    pub title: String,
    pub source_url: String,
}

/// Prepares the remote version selector; `None` when there is nothing to
/// select (the selector then quits at once).
pub fn remote_selector_view(items: &Vec<RemoteVersionItem>, total_count: usize) -> (r: Option<RemoteSelectorView>)
    ensures
        items@.len() == 0 <==> r is None,
        r matches Some(v) ==> {
            &&& v.source_url@ == items@[0].source_url@
            &&& v.rows@.len() == items@.len()
            &&& forall|i: int| 0 <= i < v.rows@.len() ==> (#[trigger] v.rows@[i]).version@ == items@[i].full_version@
                && v.rows@[i].active == (items@[i].install_status == InstallStatus::Active)
                && v.rows@[i].installed == (items@[i].install_status != InstallStatus::NotInstalled)
                && v.rows@[i].not_installed == (items@[i].install_status == InstallStatus::NotInstalled)
            &&& v.title@ == if total_count > items@.len() {
                "Remote Versions · "@ + decimal(total_count as nat) + " available · showing "@ + decimal(items@.len())
            } else {
                "Remote Versions · "@ + decimal(total_count as nat) + " available"@
            }
        },
{
    if items.len() == 0 {
        return None;
    }
    let rows = remote_rows(items);
    let title = remote_selector_title(total_count, items.len());
    Some(RemoteSelectorView { rows, title, source_url: items[0].source_url.clone() })
}

} // verus!
