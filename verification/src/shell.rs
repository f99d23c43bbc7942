//! Shell integration: the script `sdkm env` prints for the current
//! directory (PATH rebuilt from the project's SDKs, extra variables set or
//! removed), the names of session variables, and the edit of a shell profile
//! that registers the hook. Reading variables and files happens at the edge
//! of the program.

use vstd::prelude::*;
use crate::config::{name_codes, pair_texts, string_texts, SdkConfig};
use crate::project_config::{pins_wf, strictly_sorted, with_pin, ProjectConfig};
use crate::text::{append_str, ascii_upper, chars_of, contains_exec, contains_seq, ends_with, is_alnum, push_char, replace_all, replace_all_exec, string_of, str_eq};
use crate::version::fuzzy::lex_order;

verus! {

/// The shells sdkm writes scripts for.
#[derive(Clone, Copy, Debug, PartialEq, Eq, Structural)]
pub enum ShellKind {
    Bash,
    Zsh,
    Fish,
    PowerShell,
}

// ───────────────────────── session variables ─────────────────────────

/// A name character as it appears in an environment variable name: ASCII
/// letters and digits upper-cased, anything else `_`.
pub open spec fn env_suffix_char(c: char) -> char {
    if is_alnum(c) {
        ascii_upper(c)
    } else {
        '_'
    }
}

/// An SDK name as an environment variable suffix.
pub open spec fn env_suffix(name: Seq<char>) -> Seq<char> {
    name.map_values(|c: char| env_suffix_char(c))
}

fn env_suffix_char_exec(c: char) -> (r: char)
    ensures
        r == env_suffix_char(c),
{
    if 'a' <= c && c <= 'z' {
        ((c as u8) - 32) as char
    } else if ('A' <= c && c <= 'Z') || ('0' <= c && c <= '9') {
        c
    } else {
        '_'
    }
}

/// An SDK name made a valid environment variable suffix (custom SDK names
/// may hold `-`): `my-sdk` → `MY_SDK`.
pub fn sanitize_env_suffix(name: &str) -> (r: String)
    ensures
        r@ == env_suffix(name@),
{
    let v = chars_of(name);
    let mut r = String::new();
    let mut i: usize = 0;
    while i < v.len()
        invariant
            i <= v@.len(),
            v@ == name@,
            r@ == env_suffix(name@).take(i as int),
        decreases v.len() - i,
    {
        push_char(&mut r, env_suffix_char_exec(v[i]));
        i = i + 1;
        assert(r@ =~= env_suffix(name@).take(i as int));
    }
    assert(env_suffix(name@).take(v@.len() as int) =~= env_suffix(name@));
    r
}

/// The session variable of an SDK: the prefix followed by its sanitized name.
pub fn session_var_name(prefix: &str, sdk_name: &str) -> (r: String)
    ensures
        r@ == prefix@ + env_suffix(sdk_name@),
{
    let mut r = String::from_str(prefix);
    let s = sanitize_env_suffix(sdk_name);
    append_str(&mut r, s.as_str());
    r
}

/// A session value counts when it is set and not empty.
pub fn session_value(value: Option<&str>) -> (r: Option<String>)
    ensures
        match value {
            Some(v) => if v@.len() > 0 { r matches Some(s) && s@ == v@ } else { r is None },
            None => r is None,
        },
{
    match value {
        Some(v) => if v.unicode_len() > 0 { Some(String::from_str(v)) } else { None },
        None => None,
    }
}

/// The (SDK, version request) pairs an env script selects, by priority:
/// first every registered SDK with a session override (its value), then the
/// project's pins of SDKs without one.
pub open spec fn env_requests_spec(
    registered: Seq<Seq<char>>,
    session: Seq<Option<Seq<char>>>,
    pins: Seq<(Seq<char>, Seq<char>)>,
    pin_overridden: Seq<bool>,
) -> Seq<(Seq<char>, Seq<char>)> {
    session_requests(registered, session) + pin_requests(pins, pin_overridden)
}

/// The registered SDKs with a session override, with it.
pub open spec fn session_requests(registered: Seq<Seq<char>>, session: Seq<Option<Seq<char>>>) -> Seq<(Seq<char>, Seq<char>)>
    decreases registered.len(),
{
    if registered.len() == 0 {
        Seq::empty()
    } else {
        let r = session_requests(registered.drop_last(), session.take(registered.len() - 1));
        match session[registered.len() - 1] {
            Some(v) => r.push((registered.last(), v)),
            None => r,
        }
    }
}

/// The pins of SDKs without a session override.
pub open spec fn pin_requests(pins: Seq<(Seq<char>, Seq<char>)>, overridden: Seq<bool>) -> Seq<(Seq<char>, Seq<char>)>
    decreases pins.len(),
{
    if pins.len() == 0 {
        Seq::empty()
    } else {
        let r = pin_requests(pins.drop_last(), overridden.take(pins.len() - 1));
        if overridden[pins.len() - 1] {
            r
        } else {
            r.push(pins.last())
        }
    }
}

/// The optional texts of a list of optional strings.
pub open spec fn opt_texts(v: Seq<Option<String>>) -> Seq<Option<Seq<char>>> {
    v.map_values(|o: Option<String>| crate::version::discovery::opt_text(o))
}

/// What an env script selects: session overrides of the registered SDKs
/// (`session[i]` for `registered[i]`, read by the caller) take priority over
/// the project's pins (`pin_overridden[j]`: the SDK of `pins[j]` has a
/// session override); SDKs with neither keep their global version.
pub fn env_requests(
    registered: &Vec<String>,
    session: &Vec<Option<String>>,
    pins: &Vec<(String, String)>,
    pin_overridden: &Vec<bool>,
) -> (r: Vec<(String, String)>)
    requires
        registered@.len() == session@.len(),
        pins@.len() == pin_overridden@.len(),
    ensures
        pair_texts(r@) == env_requests_spec(string_texts(registered@), opt_texts(session@), pair_texts(pins@), pin_overridden@),
{
    let ghost rs = string_texts(registered@);
    let ghost ss = opt_texts(session@);
    let ghost ps = pair_texts(pins@);
    let mut r: Vec<(String, String)> = Vec::new();
    let mut i: usize = 0;
    while i < registered.len()
        invariant
            i <= registered@.len(),
            registered@.len() == session@.len(),
            rs == string_texts(registered@),
            ss == opt_texts(session@),
            pair_texts(r@) == session_requests(rs.take(i as int), ss.take(i as int)),
        decreases registered.len() - i,
    {
        assert(rs.take(i + 1).drop_last() =~= rs.take(i as int));
        assert(ss.take(i + 1).take(i as int) =~= ss.take(i as int));
        match &session[i] {
            Some(v) => {
                let ghost before = r@;
                r.push((registered[i].clone(), v.clone()));
                assert(pair_texts(r@) =~= pair_texts(before).push((rs[i as int], v@)));
            },
            None => {},
        }
        i = i + 1;
    }
    assert(rs.take(registered@.len() as int) =~= rs);
    assert(ss.take(registered@.len() as int) =~= ss);
    let ghost head = pair_texts(r@);
    let mut j: usize = 0;
    while j < pins.len()
        invariant
            j <= pins@.len(),
            pins@.len() == pin_overridden@.len(),
            ps == pair_texts(pins@),
            pair_texts(r@) == head + pin_requests(ps.take(j as int), pin_overridden@.take(j as int)),
        decreases pins.len() - j,
    {
        assert(ps.take(j + 1).drop_last() =~= ps.take(j as int));
        assert(pin_overridden@.take(j + 1).take(j as int) =~= pin_overridden@.take(j as int));
        if !pin_overridden[j] {
            let ghost before = r@;
            r.push((pins[j].0.clone(), pins[j].1.clone()));
            assert(pair_texts(r@) =~= pair_texts(before).push(ps[j as int]));
            assert(head + pin_requests(ps.take(j + 1), pin_overridden@.take(j + 1)) =~= (head + pin_requests(ps.take(j as int), pin_overridden@.take(j as int))).push(ps[j as int]));
        }
        j = j + 1;
    }
    assert(ps.take(pins@.len() as int) =~= ps);
    assert(pin_overridden@.take(pins@.len() as int) =~= pin_overridden@);
    r
}

// ───────────────────────── known variables ─────────────────────────

/// `x` is the name of an extra variable of some SDK.
pub open spec fn is_extra_var_of(sdks: Seq<SdkConfig>, x: Seq<char>) -> bool {
    exists|s: int, k: int| 0 <= s < sdks.len() && 0 <= k < sdks[s].extra_vars@.len() && #[trigger] sdks[s].extra_vars@[k].0@ == x
}

/// The names of a (name, value) list.
pub open spec fn pair_names(ps: Seq<(Seq<char>, Seq<char>)>) -> Seq<Seq<char>> {
    ps.map_values(|p: (Seq<char>, Seq<char>)| p.0)
}

proof fn lemma_with_pin_names(ps: Seq<(Seq<char>, Seq<char>)>, j: int, n: Seq<char>, v: Seq<char>, x: Seq<char>)
    requires
        0 <= j <= ps.len(),
    ensures
        pair_names(with_pin(ps, j, n, v)).contains(x) <==> (x == n || pair_names(ps).contains(x)),
{
    let q = with_pin(ps, j, n, v);
    if j < ps.len() && ps[j].0 == n {
        if pair_names(q).contains(x) {
            let i = choose|i: int| 0 <= i < pair_names(q).len() && pair_names(q)[i] == x;
            if i != j {
                assert(pair_names(ps)[i] == x);
            }
        }
        if pair_names(ps).contains(x) {
            let i = choose|i: int| 0 <= i < pair_names(ps).len() && pair_names(ps)[i] == x;
            if i == j {
                assert(pair_names(q)[j] == x);
            } else {
                assert(pair_names(q)[i] == x);
            }
        }
        if x == n {
            assert(pair_names(q)[j] == x);
        }
    } else {
        if pair_names(q).contains(x) {
            let i = choose|i: int| 0 <= i < pair_names(q).len() && pair_names(q)[i] == x;
            if i < j {
                assert(pair_names(ps)[i] == x);
            } else if i > j {
                assert(pair_names(ps)[i - 1] == x);
            }
        }
        if pair_names(ps).contains(x) {
            let i = choose|i: int| 0 <= i < pair_names(ps).len() && pair_names(ps)[i] == x;
            if i < j {
                assert(pair_names(q)[i] == x);
            } else {
                assert(pair_names(q)[i + 1] == x);
            }
        }
        if x == n {
            assert(pair_names(q)[j] == x);
        }
    }
}

/// The names of all SDKs' extra variables, each once, in `String` order:
/// the variables a project may set, and otherwise removes.
pub fn known_env_keys(sdks: &Vec<SdkConfig>) -> (r: Vec<String>)
    ensures
        forall|i: int, j: int| 0 <= i < j < r@.len() ==> lex_order(name_codes(#[trigger] r@[i]@), name_codes(#[trigger] r@[j]@)) < 0,
        forall|x: Seq<char>| string_texts(r@).contains(x) <==> is_extra_var_of(sdks@, x),
{
    let mut set = ProjectConfig { pins: Vec::new() };
    let mut s: usize = 0;
    while s < sdks.len()
        invariant
            s <= sdks@.len(),
            pins_wf(set),
            forall|x: Seq<char>| pair_names(pair_texts(set.pins@)).contains(x) <==> exists|t: int, k: int| 0 <= t < s && 0 <= k < sdks@[t].extra_vars@.len() && #[trigger] sdks@[t].extra_vars@[k].0@ == x,
        decreases sdks.len() - s,
    {
        let vars = &sdks[s].extra_vars;
        let mut k: usize = 0;
        while k < vars.len()
            invariant
                s < sdks@.len(),
                vars == &sdks@[s as int].extra_vars,
                k <= vars@.len(),
                pins_wf(set),
                forall|x: Seq<char>| pair_names(pair_texts(set.pins@)).contains(x) <==> (
                    (exists|t: int, m: int| 0 <= t < s && 0 <= m < sdks@[t].extra_vars@.len() && #[trigger] sdks@[t].extra_vars@[m].0@ == x)
                    || (exists|m: int| 0 <= m < k && #[trigger] vars@[m].0@ == x)),
            decreases vars.len() - k,
        {
            let ghost before = pair_texts(set.pins@);
            let name = vars[k].0.clone();
            set.insert_pin(name, String::new());
            proof {
                let j = choose|j: int| #[trigger] crate::project_config::pin_slot(before, vars@[k as int].0@, j)
                    && pair_texts(set.pins@) == with_pin(before, j, vars@[k as int].0@, Seq::<char>::empty());
                assert forall|x: Seq<char>| pair_names(pair_texts(set.pins@)).contains(x) <==> (
                    (exists|t: int, m: int| 0 <= t < s && 0 <= m < sdks@[t].extra_vars@.len() && #[trigger] sdks@[t].extra_vars@[m].0@ == x)
                    || (exists|m: int| 0 <= m < k + 1 && #[trigger] vars@[m].0@ == x)) by {
                    lemma_with_pin_names(before, j, vars@[k as int].0@, Seq::<char>::empty(), x);
                    if x == vars@[k as int].0@ {
                        assert(vars@[k as int].0@ == x);
                    }
                    if exists|m: int| 0 <= m < k + 1 && #[trigger] vars@[m].0@ == x {
                        let m = choose|m: int| 0 <= m < k + 1 && #[trigger] vars@[m].0@ == x;
                        if m < k {
                            assert(vars@[m].0@ == x);
                        }
                    }
                }
            }
            k = k + 1;
        }
        proof {
            assert forall|x: Seq<char>| pair_names(pair_texts(set.pins@)).contains(x) <==> exists|t: int, m: int| 0 <= t < s + 1 && 0 <= m < sdks@[t].extra_vars@.len() && #[trigger] sdks@[t].extra_vars@[m].0@ == x by {
                if exists|t: int, m: int| 0 <= t < s + 1 && 0 <= m < sdks@[t].extra_vars@.len() && #[trigger] sdks@[t].extra_vars@[m].0@ == x {
                    let (t, m) = choose|t: int, m: int| 0 <= t < s + 1 && 0 <= m < sdks@[t].extra_vars@.len() && #[trigger] sdks@[t].extra_vars@[m].0@ == x;
                    if t == s {
                        assert(vars@[m].0@ == x);
                    } else {
                        assert(sdks@[t].extra_vars@[m].0@ == x);
                    }
                }
            }
        }
        s = s + 1;
    }
    let mut r: Vec<String> = Vec::new();
    let mut i: usize = 0;
    let ghost ps = pair_texts(set.pins@);
    while i < set.pins.len()
        invariant
            ps == pair_texts(set.pins@),
            i <= set.pins@.len(),
            string_texts(r@) == pair_names(ps).take(i as int),
        decreases set.pins.len() - i,
    {
        let ghost before = r@;
        r.push(set.pins[i].0.clone());
        assert(string_texts(r@) =~= string_texts(before).push(ps[i as int].0));
        assert(pair_names(ps).take(i + 1) =~= pair_names(ps).take(i as int).push(ps[i as int].0));
        i = i + 1;
    }
    assert(pair_names(ps).take(ps.len() as int) =~= pair_names(ps));
    proof {
        assert forall|a: int, b: int| 0 <= a < b < r@.len() implies lex_order(name_codes(#[trigger] r@[a]@), name_codes(#[trigger] r@[b]@)) < 0 by {
            assert(string_texts(r@)[a] == ps[a].0);
            assert(string_texts(r@)[b] == ps[b].0);
        }
        assert forall|x: Seq<char>| string_texts(r@).contains(x) <==> is_extra_var_of(sdks@, x) by {
            if is_extra_var_of(sdks@, x) {
                let (t, m) = choose|t: int, m: int| 0 <= t < sdks@.len() && 0 <= m < sdks@[t].extra_vars@.len() && #[trigger] sdks@[t].extra_vars@[m].0@ == x;
                assert(sdks@[t].extra_vars@[m].0@ == x);
            }
        }
    }
    r
}

// ───────────────────────── env script ─────────────────────────

/// What a project selects of one SDK: its bin directories for PATH, and its
/// extra variables with their values.
pub struct SelectedSdk {
    pub bins: Vec<String>,
    pub env_vars: Vec<(String, String)>,
}

/// A selected SDK as text.
pub type SelectedText = (Seq<Seq<char>>, Seq<(Seq<char>, Seq<char>)>);

/// The texts of the selected SDKs (their names aside).
pub open spec fn selected_texts(sel: Seq<(String, SelectedSdk)>) -> Seq<SelectedText> {
    sel.map_values(|p: (String, SelectedSdk)| (string_texts(p.1.bins@), pair_texts(p.1.env_vars@)))
}

/// All bin directories of the selected SDKs, in order.
pub open spec fn all_bins(sel: Seq<SelectedText>) -> Seq<Seq<char>>
    decreases sel.len(),
{
    if sel.len() == 0 {
        Seq::empty()
    } else {
        all_bins(sel.drop_last()) + sel.last().0
    }
}

/// All variables of the selected SDKs, in order.
pub open spec fn all_vars(sel: Seq<SelectedText>) -> Seq<(Seq<char>, Seq<char>)>
    decreases sel.len(),
{
    if sel.len() == 0 {
        Seq::empty()
    } else {
        all_vars(sel.drop_last()) + sel.last().1
    }
}

/// Some variable of the list is named `k`.
pub open spec fn has_var(vars: Seq<(Seq<char>, Seq<char>)>, k: Seq<char>) -> bool {
    exists|i: int| 0 <= i < vars.len() && #[trigger] vars[i].0 == k
}

/// The known variables not set by the selection, in order.
pub open spec fn unset_keys(known: Seq<Seq<char>>, vars: Seq<(Seq<char>, Seq<char>)>) -> Seq<Seq<char>>
    decreases known.len(),
{
    if known.len() == 0 {
        Seq::empty()
    } else {
        let r = unset_keys(known.drop_last(), vars);
        if has_var(vars, known.last()) {
            r
        } else {
            r.push(known.last())
        }
    }
}

/// Each directory followed by `sep`.
pub open spec fn with_suffix(entries: Seq<Seq<char>>, sep: Seq<char>) -> Seq<char>
    decreases entries.len(),
{
    if entries.len() == 0 {
        Seq::empty()
    } else {
        with_suffix(entries.drop_last(), sep) + entries.last() + sep
    }
}

/// Each directory quoted, after a space.
pub open spec fn quoted_words(entries: Seq<Seq<char>>) -> Seq<char>
    decreases entries.len(),
{
    if entries.len() == 0 {
        Seq::empty()
    } else {
        quoted_words(entries.drop_last()) + " \""@ + entries.last() + "\""@
    }
}

/// The line that saves PATH in the base variable `e` when it is not set yet
/// (so PATH is never emptied when the hook is missing).
pub open spec fn heal_line(sh: ShellKind, e: Seq<char>) -> Seq<char> {
    match sh {
        ShellKind::Fish => "if not set -q "@ + e + "\n    set -gx "@ + e + " $PATH\nend"@,
        ShellKind::PowerShell => "if (-not $env:"@ + e + ") { $env:"@ + e + " = $env:PATH }"@,
        _ => "[ -z \"${"@ + e + ":-}\" ] && export "@ + e + "=\"$PATH\""@,
    }
}

/// The line that sets PATH to the directories followed by the base PATH.
pub open spec fn path_line(sh: ShellKind, entries: Seq<Seq<char>>, e: Seq<char>) -> Seq<char> {
    match sh {
        ShellKind::Fish => "set -gx PATH"@ + quoted_words(entries) + " $"@ + e,
        ShellKind::PowerShell => "$env:PATH = \""@ + with_suffix(entries, ";"@) + "\" + $env:"@ + e,
        _ => "export PATH=\""@ + with_suffix(entries, ":"@) + "$"@ + e + "\""@,
    }
}

/// The line that removes variable `k`.
pub open spec fn unset_line(sh: ShellKind, k: Seq<char>) -> Seq<char> {
    match sh {
        ShellKind::Fish => "set -q "@ + k + "; and set -e "@ + k,
        ShellKind::PowerShell => "Remove-Item Env:"@ + k + " -ErrorAction SilentlyContinue"@,
        _ => "unset "@ + k,
    }
}

/// The line that sets variable `k` to `v`.
pub open spec fn export_line(sh: ShellKind, k: Seq<char>, v: Seq<char>) -> Seq<char> {
    match sh {
        ShellKind::Fish => "set -gx "@ + k + " \""@ + v + "\""@,
        ShellKind::PowerShell => "$env:"@ + k + " = \""@ + v + "\""@,
        _ => "export "@ + k + "=\""@ + v + "\""@,
    }
}

/// The unset lines of some keys.
pub open spec fn unset_lines(sh: ShellKind, keys: Seq<Seq<char>>) -> Seq<Seq<char>> {
    keys.map_values(|k: Seq<char>| unset_line(sh, k))
}

/// The export lines of some variables.
pub open spec fn export_lines(sh: ShellKind, vars: Seq<(Seq<char>, Seq<char>)>) -> Seq<Seq<char>> {
    vars.map_values(|p: (Seq<char>, Seq<char>)| export_line(sh, p.0, p.1))
}

/// The lines of the env script: save the base PATH, rebuild PATH from the
/// selected bin directories, remove the known variables not selected, set
/// the selected ones.
pub open spec fn env_lines(sh: ShellKind, sel: Seq<SelectedText>, known: Seq<Seq<char>>, e: Seq<char>) -> Seq<Seq<char>> {
    seq![heal_line(sh, e), path_line(sh, all_bins(sel), e)] + unset_lines(sh, unset_keys(known, all_vars(sel)))
        + export_lines(sh, all_vars(sel))
}

/// Lines, each ended by a newline.
pub open spec fn lines_text(lines: Seq<Seq<char>>) -> Seq<char>
    decreases lines.len(),
{
    if lines.len() == 0 {
        Seq::empty()
    } else {
        lines_text(lines.drop_last()) + lines.last() + "\n"@
    }
}

fn heal_line_exec(sh: ShellKind, e: &str) -> (r: String)
    ensures
        r@ == heal_line(sh, e@),
{
    match sh {
        ShellKind::Fish => {
            let mut r = String::from_str("if not set -q ");
            append_str(&mut r, e);
            append_str(&mut r, "\n    set -gx ");
            append_str(&mut r, e);
            append_str(&mut r, " $PATH\nend");
            r
        },
        ShellKind::PowerShell => {
            let mut r = String::from_str("if (-not $env:");
            append_str(&mut r, e);
            append_str(&mut r, ") { $env:");
            append_str(&mut r, e);
            append_str(&mut r, " = $env:PATH }");
            r
        },
        _ => {
            let mut r = String::from_str("[ -z \"${");
            append_str(&mut r, e);
            append_str(&mut r, ":-}\" ] && export ");
            append_str(&mut r, e);
            append_str(&mut r, "=\"$PATH\"");
            r
        },
    }
}

fn path_line_exec(sh: ShellKind, entries: &Vec<String>, e: &str) -> (r: String)
    ensures
        r@ == path_line(sh, string_texts(entries@), e@),
{
    let ghost es = string_texts(entries@);
    let mut r = match sh {
        ShellKind::Fish => String::from_str("set -gx PATH"),
        ShellKind::PowerShell => String::from_str("$env:PATH = \""),
        _ => String::from_str("export PATH=\""),
    };
    let ghost head = r@;
    let sep: &str = match sh {
        ShellKind::PowerShell => ";",
        _ => ":",
    };
    let mut i: usize = 0;
    while i < entries.len()
        invariant
            i <= entries@.len(),
            es == string_texts(entries@),
            sh == ShellKind::Fish ==> r@ == head + quoted_words(es.take(i as int)),
            sh != ShellKind::Fish ==> r@ == head + with_suffix(es.take(i as int), sep@),
        decreases entries.len() - i,
    {
        assert(es.take(i + 1).drop_last() =~= es.take(i as int));
        assert(es.take(i + 1).last() == entries@[i as int]@);
        if sh == ShellKind::Fish {
            append_str(&mut r, " \"");
            append_str(&mut r, entries[i].as_str());
            append_str(&mut r, "\"");
            assert(r@ =~= head + quoted_words(es.take(i + 1)));
        } else {
            append_str(&mut r, entries[i].as_str());
            append_str(&mut r, sep);
            assert(r@ =~= head + with_suffix(es.take(i + 1), sep@));
        }
        i = i + 1;
    }
    assert(es.take(entries@.len() as int) =~= es);
    match sh {
        ShellKind::Fish => {
            append_str(&mut r, " $");
            append_str(&mut r, e);
        },
        ShellKind::PowerShell => {
            append_str(&mut r, "\" + $env:");
            append_str(&mut r, e);
        },
        _ => {
            append_str(&mut r, "$");
            append_str(&mut r, e);
            append_str(&mut r, "\"");
        },
    }
    r
}

fn unset_line_exec(sh: ShellKind, k: &str) -> (r: String)
    ensures
        r@ == unset_line(sh, k@),
{
    match sh {
        ShellKind::Fish => {
            let mut r = String::from_str("set -q ");
            append_str(&mut r, k);
            append_str(&mut r, "; and set -e ");
            append_str(&mut r, k);
            r
        },
        ShellKind::PowerShell => {
            let mut r = String::from_str("Remove-Item Env:");
            append_str(&mut r, k);
            append_str(&mut r, " -ErrorAction SilentlyContinue");
            r
        },
        _ => {
            let mut r = String::from_str("unset ");
            append_str(&mut r, k);
            r
        },
    }
}

/// The line that sets variable `k` to `v` in shell `sh`.
pub fn export_line_string(sh: ShellKind, k: &str, v: &str) -> (r: String)
    ensures
        r@ == export_line(sh, k@, v@),
{
    let mut r = match sh {
        ShellKind::Fish => String::from_str("set -gx "),
        ShellKind::PowerShell => String::from_str("$env:"),
        _ => String::from_str("export "),
    };
    append_str(&mut r, k);
    match sh {
        ShellKind::Fish => append_str(&mut r, " \""),
        ShellKind::PowerShell => append_str(&mut r, " = \""),
        _ => append_str(&mut r, "=\""),
    }
    append_str(&mut r, v);
    append_str(&mut r, "\"");
    r
}

fn collect_selected(selected: &Vec<(String, SelectedSdk)>) -> (r: (Vec<String>, Vec<(String, String)>))
    ensures
        string_texts(r.0@) == all_bins(selected_texts(selected@)),
        pair_texts(r.1@) == all_vars(selected_texts(selected@)),
{
    let ghost st = selected_texts(selected@);
    let mut bins: Vec<String> = Vec::new();
    let mut vars: Vec<(String, String)> = Vec::new();
    let mut i: usize = 0;
    while i < selected.len()
        invariant
            i <= selected@.len(),
            st == selected_texts(selected@),
            string_texts(bins@) == all_bins(st.take(i as int)),
            pair_texts(vars@) == all_vars(st.take(i as int)),
        decreases selected.len() - i,
    {
        assert(st.take(i + 1).drop_last() =~= st.take(i as int));
        let s = &selected[i].1;
        assert(st.take(i + 1).last() == (string_texts(s.bins@), pair_texts(s.env_vars@)));
        let ghost b0 = string_texts(bins@);
        let mut j: usize = 0;
        while j < s.bins.len()
            invariant
                j <= s.bins@.len(),
                string_texts(bins@) == b0 + string_texts(s.bins@).take(j as int),
            decreases s.bins.len() - j,
        {
            let ghost before = bins@;
            bins.push(s.bins[j].clone());
            assert(string_texts(bins@) =~= string_texts(before).push(s.bins@[j as int]@));
            assert(string_texts(s.bins@).take(j + 1) =~= string_texts(s.bins@).take(j as int).push(s.bins@[j as int]@));
            j = j + 1;
        }
        assert(string_texts(s.bins@).take(s.bins@.len() as int) =~= string_texts(s.bins@));
        let ghost v0 = pair_texts(vars@);
        let mut k: usize = 0;
        while k < s.env_vars.len()
            invariant
                k <= s.env_vars@.len(),
                pair_texts(vars@) == v0 + pair_texts(s.env_vars@).take(k as int),
            decreases s.env_vars.len() - k,
        {
            let ghost before = vars@;
            vars.push((s.env_vars[k].0.clone(), s.env_vars[k].1.clone()));
            assert(pair_texts(vars@) =~= pair_texts(before).push((s.env_vars@[k as int].0@, s.env_vars@[k as int].1@)));
            assert(pair_texts(s.env_vars@).take(k + 1) =~= pair_texts(s.env_vars@).take(k as int).push((s.env_vars@[k as int].0@, s.env_vars@[k as int].1@)));
            k = k + 1;
        }
        assert(pair_texts(s.env_vars@).take(s.env_vars@.len() as int) =~= pair_texts(s.env_vars@));
        i = i + 1;
    }
    assert(st.take(selected@.len() as int) =~= st);
    (bins, vars)
}

fn has_var_exec(vars: &Vec<(String, String)>, k: &str) -> (r: bool)
    ensures
        r == has_var(pair_texts(vars@), k@),
{
    let ghost ps = pair_texts(vars@);
    let mut i: usize = 0;
    while i < vars.len()
        invariant
            i <= vars@.len(),
            ps == pair_texts(vars@),
            forall|j: int| 0 <= j < i ==> ps[j].0 != k@,
        decreases vars.len() - i,
    {
        if str_eq(vars[i].0.as_str(), k) {
            assert(ps[i as int].0 == k@);
            return true;
        }
        i = i + 1;
    }
    false
}

/// Lines joined, each ended by a newline.
pub fn join_lines(lines: &Vec<String>) -> (r: String)
    ensures
        r@ == lines_text(string_texts(lines@)),
{
    let ghost ls = string_texts(lines@);
    let mut r = String::new();
    let mut i: usize = 0;
    while i < lines.len()
        invariant
            i <= lines@.len(),
            ls == string_texts(lines@),
            r@ == lines_text(ls.take(i as int)),
        decreases lines.len() - i,
    {
        assert(ls.take(i + 1).drop_last() =~= ls.take(i as int));
        append_str(&mut r, lines[i].as_str());
        append_str(&mut r, "\n");
        i = i + 1;
    }
    assert(ls.take(lines@.len() as int) =~= ls);
    r
}

/// The env script of the selected SDKs: the base PATH saved in variable
/// `base_var` when unset; PATH rebuilt as the selected bin directories (in
/// order) before the base PATH; the known variables that no selected SDK
/// sets removed (in the order given); the selected variables set.
pub fn render_env_script(sh: ShellKind, selected: &Vec<(String, SelectedSdk)>, known: &Vec<String>, base_var: &str) -> (r: String)
    ensures
        r@ == lines_text(env_lines(sh, selected_texts(selected@), string_texts(known@), base_var@)),
{
    let ghost st = selected_texts(selected@);
    let ghost ks = string_texts(known@);
    let (bins, vars) = collect_selected(selected);
    let ghost vs = pair_texts(vars@);
    let mut lines: Vec<String> = Vec::new();
    lines.push(heal_line_exec(sh, base_var));
    lines.push(path_line_exec(sh, &bins, base_var));
    let ghost head = string_texts(lines@);
    assert(head =~= seq![heal_line(sh, base_var@), path_line(sh, all_bins(st), base_var@)]);
    let mut i: usize = 0;
    while i < known.len()
        invariant
            i <= known@.len(),
            ks == string_texts(known@),
            vs == pair_texts(vars@),
            vs == all_vars(st),
            string_texts(lines@) == head + unset_lines(sh, unset_keys(ks.take(i as int), vs)),
        decreases known.len() - i,
    {
        assert(ks.take(i + 1).drop_last() =~= ks.take(i as int));
        assert(ks.take(i + 1).last() == known@[i as int]@);
        if !has_var_exec(&vars, known[i].as_str()) {
            let ghost before = lines@;
            lines.push(unset_line_exec(sh, known[i].as_str()));
            assert(string_texts(lines@) =~= string_texts(before).push(unset_line(sh, ks[i as int])));
            assert(unset_keys(ks.take(i + 1), vs) == unset_keys(ks.take(i as int), vs).push(ks[i as int]));
            assert(unset_lines(sh, unset_keys(ks.take(i + 1), vs)) =~= unset_lines(sh, unset_keys(ks.take(i as int), vs)).push(unset_line(sh, ks[i as int])));
            assert(string_texts(lines@) =~= head + unset_lines(sh, unset_keys(ks.take(i + 1), vs)));
        } else {
            assert(unset_keys(ks.take(i + 1), vs) == unset_keys(ks.take(i as int), vs));
        }
        i = i + 1;
    }
    assert(ks.take(known@.len() as int) =~= ks);
    let ghost mid = string_texts(lines@);
    let mut j: usize = 0;
    while j < vars.len()
        invariant
            j <= vars@.len(),
            vs == pair_texts(vars@),
            string_texts(lines@) == mid + export_lines(sh, vs.take(j as int)),
        decreases vars.len() - j,
    {
        let ghost before = lines@;
        lines.push(export_line_string(sh, vars[j].0.as_str(), vars[j].1.as_str()));
        assert(string_texts(lines@) =~= string_texts(before).push(export_line(sh, vs[j as int].0, vs[j as int].1)));
        assert(export_lines(sh, vs.take(j + 1)) =~= export_lines(sh, vs.take(j as int)).push(export_line(sh, vs[j as int].0, vs[j as int].1)));
        j = j + 1;
    }
    assert(vs.take(vars@.len() as int) =~= vs);
    assert(string_texts(lines@) =~= env_lines(sh, st, ks, base_var@));
    join_lines(&lines)
}

/// Outside a project (nothing selected) the env script restores the shell:
/// PATH is set back to the saved base PATH alone, and every known variable
/// is removed, in the given order.
pub proof fn lemma_no_selection_restores(sh: ShellKind, known: Seq<Seq<char>>, e: Seq<char>)
    ensures
        env_lines(sh, Seq::empty(), known, e) == seq![heal_line(sh, e), path_line(sh, Seq::empty(), e)] + unset_lines(sh, known),
    decreases known.len(),
{
    lemma_unset_without_vars(known);
    assert(all_vars(Seq::<SelectedText>::empty()) =~= Seq::empty());
    assert(all_bins(Seq::<SelectedText>::empty()) =~= Seq::empty());
    assert(export_lines(sh, Seq::empty()) =~= Seq::empty());
    assert(env_lines(sh, Seq::empty(), known, e) =~= seq![heal_line(sh, e), path_line(sh, Seq::empty(), e)] + unset_lines(sh, known));
}

proof fn lemma_unset_without_vars(known: Seq<Seq<char>>)
    ensures
        unset_keys(known, Seq::empty()) == known,
    decreases known.len(),
{
    if known.len() > 0 {
        lemma_unset_without_vars(known.drop_last());
        assert(!has_var(Seq::empty(), known.last()));
        assert(known.drop_last().push(known.last()) =~= known);
    }
}

// ───────────────────────── profile injection ─────────────────────────

/// What registering the hook does to a shell profile.
pub enum ProfileEdit {
    /// The hook is registered already: leave the file as it is.
    Unchanged,
    /// An old form of the hook line was replaced: write this content.
    Upgraded(String),
    /// The hook line was appended: write this content.
    Appended(String),
}

/// The first legacy form (of the (old, new) pairs) that occurs in the
/// content, if any.
pub open spec fn first_legacy(content: Seq<char>, legacy: Seq<(Seq<char>, Seq<char>)>) -> int
    decreases legacy.len(),
{
    if legacy.len() == 0 {
        0
    } else if contains_seq(content, legacy[0].0) {
        0
    } else {
        1 + first_legacy(content, legacy.drop_first())
    }
}

/// The content with the hook line appended: after a newline when the
/// content does not end with one, an empty line and a comment line.
pub open spec fn appended_profile(content: Seq<char>, hook_line: Seq<char>) -> Seq<char> {
    let base = if content.len() > 0 && content.last() != '\n' { content.push('\n') } else { content };
    base + "\n# sdkm project-level version hook\n"@ + hook_line + "\n"@
}

proof fn lemma_first_legacy(content: Seq<char>, legacy: Seq<(Seq<char>, Seq<char>)>, k: int)
    requires
        0 <= k <= legacy.len(),
        forall|j: int| 0 <= j < k ==> !contains_seq(content, #[trigger] legacy[j].0),
        k == legacy.len() || contains_seq(content, legacy[k].0),
    ensures
        first_legacy(content, legacy) == k,
    decreases k,
{
    if k > 0 {
        let t = legacy.drop_first();
        assert(!contains_seq(content, legacy[0].0));
        assert forall|j: int| 0 <= j < k - 1 implies !contains_seq(content, #[trigger] t[j].0) by {
            assert(t[j] == legacy[j + 1]);
        }
        if k < legacy.len() {
            assert(t[k - 1] == legacy[k]);
        }
        lemma_first_legacy(content, t, k - 1);
    }
}

/// Registers the hook in a profile's content: when the marker is there
/// already, the first legacy form present (if any) is replaced by its new
/// form, else nothing changes; without the marker the hook line is appended.
pub fn plan_profile_injection(content: &str, marker: &str, legacy: &Vec<(String, String)>, hook_line: &str) -> (r: ProfileEdit)
    requires
        forall|i: int| 0 <= i < legacy@.len() ==> (#[trigger] legacy@[i]).0@.len() > 0,
    ensures
        ({
            let lg = pair_texts(legacy@);
            let k = first_legacy(content@, lg);
            if !contains_seq(content@, marker@) {
                r matches ProfileEdit::Appended(c) && c@ == appended_profile(content@, hook_line@)
            } else if k < lg.len() {
                r matches ProfileEdit::Upgraded(c) && c@ == replace_all(content@, lg[k].0, lg[k].1)
            } else {
                r is Unchanged
            }
        }),
{
    let ghost lg = pair_texts(legacy@);
    let cv = chars_of(content);
    let mv = chars_of(marker);
    if !contains_exec(&cv, &mv) {
        let mut c = String::from_str(content);
        if cv.len() > 0 && cv[cv.len() - 1] != '\n' {
            push_char(&mut c, '\n');
        }
        append_str(&mut c, "\n# sdkm project-level version hook\n");
        append_str(&mut c, hook_line);
        append_str(&mut c, "\n");
        return ProfileEdit::Appended(c);
    }
    let mut k: usize = 0;
    while k < legacy.len()
        invariant
            k <= legacy@.len(),
            lg == pair_texts(legacy@),
            cv@ == content@,
            contains_seq(content@, marker@),
            forall|i: int| 0 <= i < legacy@.len() ==> (#[trigger] legacy@[i]).0@.len() > 0,
            forall|j: int| 0 <= j < k ==> !contains_seq(content@, #[trigger] lg[j].0),
        decreases legacy.len() - k,
    {
        let old_form = chars_of(legacy[k].0.as_str());
        if contains_exec(&cv, &old_form) {
            proof {
                lemma_first_legacy(content@, lg, k as int);
            }
            let new_form = chars_of(legacy[k].1.as_str());
            assert(lg[k as int] == (legacy@[k as int].0@, legacy@[k as int].1@));
            let out = replace_all_exec(&cv, &old_form, &new_form);
            return ProfileEdit::Upgraded(string_of(&out));
        }
        k = k + 1;
    }
    proof {
        lemma_first_legacy(content@, lg, k as int);
    }
    ProfileEdit::Unchanged
}

} // verus!
