//! Shell-profile editing on Unix: export lines, the PATH line, and
//! per-directory PATH commands, as transformations of the profile's lines.

use vstd::prelude::*;
use crate::config::string_texts;
use crate::shell::ShellKind;
use crate::text::{
    is_ws, trim_end, trim_start, append_chars, append_str, chars_of, ends_with, push_char, split_on, split_chars, starts_with, starts_with_exec, str_eq, string_of,
    sub_chars, trim, trim_range,
};

verus! {

/// Environment changes persisted in the shell profile.
pub struct UnixEnvOperation {}

/// The line that rebuilds PATH starts with this (after trimming).
pub const REBUILD_PATH_PREFIX: &'static str = "export PATH=";

/// The position of the first line that, trimmed, starts with `prefix`
/// (`lines.len()` when none does).
pub open spec fn first_line_with(lines: Seq<Seq<char>>, prefix: Seq<char>) -> int
    decreases lines.len(),
{
    if lines.len() == 0 {
        0
    } else if starts_with(trim(lines[0]), prefix) {
        0
    } else {
        1 + first_line_with(lines.drop_first(), prefix)
    }
}

proof fn lemma_first_line_with(lines: Seq<Seq<char>>, prefix: Seq<char>, k: int)
    requires
        0 <= k <= lines.len(),
        forall|j: int| 0 <= j < k ==> !starts_with(trim(#[trigger] lines[j]), prefix),
        k == lines.len() || starts_with(trim(lines[k]), prefix),
    ensures
        first_line_with(lines, prefix) == k,
    decreases k,
{
    if k > 0 {
        let u = lines.drop_first();
        assert(!starts_with(trim(lines[0]), prefix));
        assert forall|j: int| 0 <= j < k - 1 implies !starts_with(trim(#[trigger] u[j]), prefix) by {
            assert(u[j] == lines[j + 1]);
        }
        if k < lines.len() {
            assert(u[k - 1] == lines[k]);
        }
        lemma_first_line_with(u, prefix, k - 1);
    }
}

/// Whether a line, trimmed, starts with `prefix`.
fn trimmed_starts_with(line: &str, prefix: &Vec<char>) -> (r: bool)
    ensures
        r == starts_with(trim(line@), prefix@),
{
    let v = chars_of(line);
    let (a, b) = trim_range(&v);
    let t = sub_chars(&v, a, b);
    starts_with_exec(&t, prefix)
}

/// The position of the first line that, trimmed, starts with `prefix`.
fn find_line_with(lines: &Vec<String>, prefix: &str) -> (r: usize)
    ensures
        r as int == first_line_with(string_texts(lines@), prefix@),
        r <= lines@.len(),
{
    let p = chars_of(prefix);
    let ghost ls = string_texts(lines@);
    let mut k: usize = 0;
    while k < lines.len() && !trimmed_starts_with(lines[k].as_str(), &p)
        invariant
            ls == string_texts(lines@),
            p@ == prefix@,
            k <= lines@.len(),
            forall|j: int| 0 <= j < k ==> !starts_with(trim(#[trigger] ls[j]), prefix@),
        decreases lines.len() - k,
    {
        k = k + 1;
    }
    proof {
        lemma_first_line_with(ls, prefix@, k as int);
    }
    k
}

impl UnixEnvOperation {
    /// The position of the line that rebuilds PATH, if any.
    pub fn find_path_export_line(lines: &Vec<String>) -> (r: Option<usize>)
        ensures
            ({
                let k = first_line_with(string_texts(lines@), REBUILD_PATH_PREFIX@);
                &&& (r is None <==> k == lines@.len())
                &&& (r matches Some(i) ==> i == k)
            }),
    {
        let k = find_line_with(lines, REBUILD_PATH_PREFIX);
        if k < lines.len() { Some(k) } else { None }
    }

    /// The profile's lines with the export line of a variable (the first
    /// line that, trimmed, starts with `export_prefix`) replaced by
    /// `new_line`, or `new_line` appended when there is none.
    pub fn replace_or_append_export(lines: Vec<String>, export_prefix: &str, new_line: String) -> (r: Vec<String>)
        ensures
            ({
                let ls = string_texts(lines@);
                let k = first_line_with(ls, export_prefix@);
                string_texts(r@) == if k < ls.len() { ls.update(k, new_line@) } else { ls.push(new_line@) }
            }),
    {
        let ghost ls = string_texts(lines@);
        let ghost nl = new_line@;
        let k = find_line_with(&lines, export_prefix);
        let mut lines = lines;
        if k < lines.len() {
            lines.set(k, new_line);
            assert(string_texts(lines@) =~= ls.update(k as int, nl));
        } else {
            lines.push(new_line);
            assert(string_texts(lines@) =~= ls.push(nl));
        }
        lines
    }

    /// The profile's lines without those that, trimmed, start with `export_prefix`.
    pub fn remove_export_lines(lines: &Vec<String>, export_prefix: &str) -> (r: Vec<String>)
        ensures
            string_texts(r@) == string_texts(lines@).filter(|l: Seq<char>| !starts_with(trim(l), export_prefix@)),
    {
        let p = chars_of(export_prefix);
        let ghost ls = string_texts(lines@);
        let ghost pred = |l: Seq<char>| !starts_with(trim(l), export_prefix@);
        let mut r: Vec<String> = Vec::new();
        let mut i: usize = 0;
        while i < lines.len()
            invariant
                ls == string_texts(lines@),
                p@ == export_prefix@,
                pred == (|l: Seq<char>| !starts_with(trim(l), export_prefix@)),
                i <= lines@.len(),
                string_texts(r@) == ls.take(i as int).filter(pred),
            decreases lines.len() - i,
        {
            let ghost prev = string_texts(r@);
            reveal(Seq::filter);
            assert(ls.take(i + 1).drop_last() =~= ls.take(i as int));
            assert(ls.take(i + 1).last() == ls[i as int]);
            if !trimmed_starts_with(lines[i].as_str(), &p) {
                r.push(lines[i].clone());
                assert(string_texts(r@) =~= prev.push(ls[i as int]));
            }
            i = i + 1;
        }
        assert(ls.take(lines@.len() as int) =~= ls);
        r
    }
}

/// `s` with every leading occurrence of `p` removed (`str::trim_start_matches`).
pub open spec fn trim_start_matches(s: Seq<char>, p: Seq<char>) -> Seq<char>
    decreases s.len(),
{
    if p.len() > 0 && starts_with(s, p) {
        trim_start_matches(s.skip(p.len() as int), p)
    } else {
        s
    }
}

/// `s` without the character `c` at its ends (`str::trim_matches`).
pub open spec fn trim_char(s: Seq<char>, c: char) -> Seq<char>
    decreases s.len(),
{
    if s.len() > 0 && s[0] == c {
        trim_char(s.drop_first(), c)
    } else if s.len() > 0 && s.last() == c {
        trim_char(s.drop_last(), c)
    } else {
        s
    }
}

/// `s` without any `c`.
pub open spec fn without_char(s: Seq<char>, c: char) -> Seq<char>
    decreases s.len(),
{
    if s.len() == 0 {
        s
    } else if s.last() == c {
        without_char(s.drop_last(), c)
    } else {
        without_char(s.drop_last(), c).push(s.last())
    }
}

fn trim_start_matches_exec(v: &Vec<char>, p: &Vec<char>) -> (r: Vec<char>)
    ensures
        r@ == trim_start_matches(v@, p@),
{
    let mut k: usize = 0;
    if p.len() == 0 {
        return sub_chars(v, 0, v.len());
    }
    assert(v@.skip(0) =~= v@);
    while p.len() <= v.len() - k && starts_with_exec(&sub_chars(v, k, v.len()), p)
        invariant
            p@.len() > 0,
            k <= v@.len(),
            trim_start_matches(v@, p@) == trim_start_matches(v@.skip(k as int), p@),
        decreases v.len() - k,
    {
        assert(v@.skip(k as int).skip(p@.len() as int) =~= v@.skip(k + p@.len()));
        k = k + p.len();
    }
    let r = sub_chars(v, k, v.len());
    assert(r@ =~= v@.skip(k as int));
    proof {
        if !(k + p@.len() <= v@.len()) {
            assert(!starts_with(v@.skip(k as int), p@));
        }
    }
    r
}

fn trim_char_exec(v: &Vec<char>, c: char) -> (r: Vec<char>)
    ensures
        r@ == trim_char(v@, c),
{
    let mut a: usize = 0;
    let mut b: usize = v.len();
    assert(v@.subrange(0, v@.len() as int) =~= v@);
    while a < b && v[a] == c
        invariant
            a <= b <= v@.len(),
            b == v@.len(),
            trim_char(v@, c) == trim_char(v@.subrange(a as int, b as int), c),
        decreases b - a,
    {
        assert(v@.subrange(a as int, b as int).drop_first() =~= v@.subrange(a + 1, b as int));
        a = a + 1;
    }
    while a < b && v[b - 1] == c
        invariant
            a <= b <= v@.len(),
            trim_char(v@, c) == trim_char(v@.subrange(a as int, b as int), c),
            a == b || v@[a as int] != c,
        decreases b - a,
    {
        assert(v@.subrange(a as int, b as int).drop_last() =~= v@.subrange(a as int, b - 1));
        b = b - 1;
    }
    sub_chars(v, a, b)
}

fn without_char_exec(v: &Vec<char>, c: char) -> (r: Vec<char>)
    ensures
        r@ == without_char(v@, c),
{
    let mut r: Vec<char> = Vec::new();
    let mut i: usize = 0;
    while i < v.len()
        invariant
            i <= v@.len(),
            r@ == without_char(v@.take(i as int), c),
        decreases v.len() - i,
    {
        assert(v@.take(i + 1).drop_last() =~= v@.take(i as int));
        if v[i] != c {
            r.push(v[i]);
        }
        i = i + 1;
    }
    assert(v@.take(v@.len() as int) =~= v@);
    r
}

impl UnixEnvOperation {
    /// A path with a leading `~` replaced by the home directory (when it is
    /// known).
    pub fn expand_path(path: &str, home: Option<&str>) -> (r: String)
        ensures
            match home {
                Some(h) => if path@.len() > 0 && path@[0] == '~' { r@ == h@ + path@.drop_first() } else { r@ == path@ },
                None => r@ == path@,
            },
    {
        let v = chars_of(path);
        match home {
            Some(h) => {
                if v.len() > 0 && v[0] == '~' {
                    let mut r = String::from_str(h);
                    let rest = sub_chars(&v, 1, v.len());
                    append_chars(&mut r, &rest);
                    assert(rest@ =~= path@.drop_first());
                    r
                } else {
                    String::from_str(path)
                }
            },
            None => String::from_str(path),
        }
    }

    /// The PATH value of the profile's PATH line (trimmed, prefix removed,
    /// quotes dropped), or `fallback` (the process PATH) when there is none.
    pub fn path_from_lines(lines: &Vec<String>, fallback: &str) -> (r: String)
        ensures
            ({
                let ls = string_texts(lines@);
                let k = first_line_with(ls, REBUILD_PATH_PREFIX@);
                r@ == if k < ls.len() {
                    without_char(trim_start_matches(trim(ls[k]), REBUILD_PATH_PREFIX@), '"')
                } else {
                    fallback@
                }
            }),
    {
        let k = find_line_with(lines, REBUILD_PATH_PREFIX);
        if k < lines.len() {
            let v = chars_of(lines[k].as_str());
            let (a, b) = trim_range(&v);
            let t = sub_chars(&v, a, b);
            let p = chars_of(REBUILD_PATH_PREFIX);
            let rest = trim_start_matches_exec(&t, &p);
            let out = without_char_exec(&rest, '"');
            string_of(&out)
        } else {
            String::from_str(fallback)
        }
    }

    /// Whether `entry` is one of the `:`-separated entries of a PATH value.
    pub fn path_has_entry(path: &str, entry: &str) -> (r: bool)
        ensures
            r == split_on(path@, ':').contains(entry@),
    {
        let v = chars_of(path);
        let pieces = split_chars(&v, ':');
        let e = chars_of(entry);
        let ghost ps = split_on(path@, ':');
        let mut i: usize = 0;
        while i < pieces.len()
            invariant
                i <= pieces@.len(),
                ps == split_on(path@, ':'),
                pieces@.len() == ps.len(),
                forall|k: int| 0 <= k < pieces@.len() ==> (#[trigger] pieces@[k])@ == ps[k],
                e@ == entry@,
                forall|k: int| 0 <= k < i ==> ps[k] != entry@,
            decreases pieces.len() - i,
        {
            if crate::text::chars_eq(&pieces[i], &e) {
                assert(ps[i as int] == entry@);
                return true;
            }
            i = i + 1;
        }
        false
    }

    /// The value of a variable in the profile: from the first line that,
    /// trimmed, starts with `export_prefix`, the rest without surrounding
    /// quotes; `None` when no line sets it.
    pub fn profile_value(lines: &Vec<String>, export_prefix: &str) -> (r: Option<String>)
        ensures
            ({
                let ls = string_texts(lines@);
                let k = first_line_with(ls, export_prefix@);
                if k < ls.len() {
                    r matches Some(v) && v@ == trim_char(trim_start_matches(trim(ls[k]), export_prefix@), '"')
                } else {
                    r is None
                }
            }),
    {
        let k = find_line_with(lines, export_prefix);
        if k < lines.len() {
            let v = chars_of(lines[k].as_str());
            let (a, b) = trim_range(&v);
            let t = sub_chars(&v, a, b);
            let p = chars_of(export_prefix);
            let rest = trim_start_matches_exec(&t, &p);
            let out = trim_char_exec(&rest, '"');
            Some(string_of(&out))
        } else {
            None
        }
    }

    /// The profile with a line appended (after a newline when the content
    /// does not end with one).
    pub fn append_profile_line(content: &str, line: &str) -> (r: String)
        ensures
            r@ == (if content@.len() > 0 && content@.last() != '\n' { content@.push('\n') } else { content@ }) + line@ + seq!['\n'],
    {
        let v = chars_of(content);
        let mut r = String::from_str(content);
        if v.len() > 0 && v[v.len() - 1] != '\n' {
            push_char(&mut r, '\n');
        }
        append_str(&mut r, line);
        push_char(&mut r, '\n');
        r
    }

    /// The profile's lines without those that, trimmed, equal `expect`.
    pub fn lines_without(lines: &Vec<String>, expect: &str) -> (r: Vec<String>)
        ensures
            string_texts(r@) == string_texts(lines@).filter(|l: Seq<char>| trim(l) != expect@),
    {
        let ghost ls = string_texts(lines@);
        let ghost pred = |l: Seq<char>| trim(l) != expect@;
        let e = chars_of(expect);
        let mut r: Vec<String> = Vec::new();
        let mut i: usize = 0;
        while i < lines.len()
            invariant
                ls == string_texts(lines@),
                e@ == expect@,
                pred == (|l: Seq<char>| trim(l) != expect@),
                i <= lines@.len(),
                string_texts(r@) == ls.take(i as int).filter(pred),
            decreases lines.len() - i,
        {
            let ghost prev = string_texts(r@);
            reveal(Seq::filter);
            assert(ls.take(i + 1).drop_last() =~= ls.take(i as int));
            assert(ls.take(i + 1).last() == ls[i as int]);
            let v = chars_of(lines[i].as_str());
            let (a, b) = trim_range(&v);
            let t = sub_chars(&v, a, b);
            if !crate::text::chars_eq(&t, &e) {
                r.push(lines[i].clone());
                assert(string_texts(r@) =~= prev.push(ls[i as int]));
            }
            i = i + 1;
        }
        assert(ls.take(lines@.len() as int) =~= ls);
        r
    }
}

impl UnixEnvOperation {
    /// The profile line that sets PATH to `entries` (bash and zsh):
    /// `export PATH="a:b:$PATH"` for the entries `a`, `b`, `$PATH`.
    pub fn path_export_line(entries: &Vec<String>) -> (r: String)
        ensures
            r@ == REBUILD_PATH_PREFIX@ + "\""@ + crate::hook_cache::joined(string_texts(entries@), ":"@) + "\""@,
    {
        let mut r = String::from_str(REBUILD_PATH_PREFIX);
        append_str(&mut r, "\"");
        let j = crate::hook_cache::joined_exec(entries, ":");
        append_str(&mut r, j.as_str());
        append_str(&mut r, "\"");
        r
    }
}

/// The PATH value written on a PATH line (trimmed, prefix removed, quotes dropped).
pub open spec fn path_line_value(line: Seq<char>) -> Seq<char> {
    without_char(trim_start_matches(trim(line), REBUILD_PATH_PREFIX@), '"')
}

/// The PATH line that sets PATH to the entries.
pub open spec fn path_line_text(entries: Seq<Seq<char>>) -> Seq<char> {
    REBUILD_PATH_PREFIX@ + "\""@ + crate::hook_cache::joined(entries, ":"@) + "\""@
}

/// The profile lines after putting `dir` first on PATH (bash and zsh), or
/// `None` when the PATH in effect (the profile's PATH line, else the process
/// PATH) already has it. A new PATH line keeps the inherited `$PATH`.
pub open spec fn path_after_add(ls: Seq<Seq<char>>, process_path: Seq<char>, dir: Seq<char>) -> Option<Seq<Seq<char>>> {
    let k = first_line_with(ls, REBUILD_PATH_PREFIX@);
    let current = if k < ls.len() { path_line_value(ls[k]) } else { process_path };
    if split_on(current, ':').contains(dir) {
        None
    } else if k < ls.len() {
        Some(ls.update(k, path_line_text(seq![dir] + split_on(path_line_value(ls[k]), ':'))))
    } else {
        Some(ls.push(path_line_text(seq![dir, "$PATH"@])))
    }
}

/// The profile lines after removing `target` (as written, or expanded) from
/// the PATH line (bash and zsh); the line goes when only the inherited
/// `$PATH` would be left.
pub open spec fn path_after_remove(ls: Seq<Seq<char>>, target: Seq<char>, expanded: Seq<char>) -> Seq<Seq<char>> {
    let k = first_line_with(ls, REBUILD_PATH_PREFIX@);
    if k < ls.len() {
        let kept = split_on(path_line_value(ls[k]), ':').filter(other_entry(target, expanded));
        if kept.filter(own_entry()).len() == 0 {
            ls.remove(k)
        } else {
            ls.update(k, path_line_text(kept))
        }
    } else {
        ls
    }
}

/// Entries other than `target` and `expanded`.
pub open spec fn other_entry(target: Seq<char>, expanded: Seq<char>) -> spec_fn(Seq<char>) -> bool {
    |e: Seq<char>| e != expanded && e != target
}

/// Entries other than the inherited `$PATH`.
pub open spec fn own_entry() -> spec_fn(Seq<char>) -> bool {
    |e: Seq<char>| e != "$PATH"@
}

/// The start of the profile line that sets `k`.
pub open spec fn export_prefix(sh: ShellKind, k: Seq<char>) -> Seq<char> {
    match sh {
        ShellKind::Fish => "set -gx "@ + k + " "@,
        _ => "export "@ + k + "="@,
    }
}

/// The fish profile line that puts `dir` on PATH.
pub open spec fn fish_path_line(dir: Seq<char>) -> Seq<char> {
    "fish_add_path --path \""@ + dir + "\""@
}

/// Result of adding a directory to the profile's PATH.
pub enum PathAddition {
    /// PATH already has the directory; nothing is written.
    AlreadyPresent,
    /// The new profile lines.
    Lines(Vec<String>),
}

/// The pieces of `s` between the separators, as strings.
fn split_strings(s: &str, sep: char) -> (r: Vec<String>)
    ensures
        string_texts(r@) == split_on(s@, sep),
{
    let v = chars_of(s);
    let pieces = split_chars(&v, sep);
    let ghost ps = split_on(s@, sep);
    let mut r: Vec<String> = Vec::new();
    let mut i: usize = 0;
    while i < pieces.len()
        invariant
            i <= pieces@.len(),
            ps == split_on(s@, sep),
            pieces@.len() == ps.len(),
            forall|k: int| 0 <= k < pieces@.len() ==> (#[trigger] pieces@[k])@ == ps[k],
            string_texts(r@) == ps.take(i as int),
        decreases pieces.len() - i,
    {
        let ghost prev = string_texts(r@);
        r.push(string_of(&pieces[i]));
        assert(string_texts(r@) =~= prev.push(ps[i as int]));
        assert(ps.take(i + 1) =~= ps.take(i as int).push(ps[i as int]));
        i = i + 1;
    }
    assert(ps.take(ps.len() as int) =~= ps);
    r
}

impl UnixEnvOperation {
    /// The start of the profile line that sets `k`: `export K=` (bash, zsh)
    /// or `set -gx K ` (fish).
    pub fn export_prefix_string(sh: ShellKind, k: &str) -> (r: String)
        ensures
            r@ == export_prefix(sh, k@),
    {
        match sh {
            ShellKind::Fish => {
                let mut r = String::from_str("set -gx ");
                append_str(&mut r, k);
                append_str(&mut r, " ");
                r
            },
            _ => {
                let mut r = String::from_str("export ");
                append_str(&mut r, k);
                append_str(&mut r, "=");
                r
            },
        }
    }

    /// The fish profile line that puts `dir` on PATH.
    pub fn fish_path_command(dir: &str) -> (r: String)
        ensures
            r@ == fish_path_line(dir@),
    {
        let mut r = String::from_str("fish_add_path --path \"");
        append_str(&mut r, dir);
        append_str(&mut r, "\"");
        r
    }

    /// Puts `dir` (already expanded) first on the profile's PATH line, or adds
    /// a PATH line that keeps `$PATH`; nothing changes when the PATH in effect
    /// already has it.
    pub fn add_path_lines(lines: Vec<String>, process_path: &str, dir: &str) -> (r: PathAddition)
        ensures
            match r {
                PathAddition::AlreadyPresent => path_after_add(string_texts(lines@), process_path@, dir@) is None,
                PathAddition::Lines(v) => path_after_add(string_texts(lines@), process_path@, dir@) == Some(string_texts(v@)),
            },
    {
        let ghost ls = string_texts(lines@);
        let current = Self::path_from_lines(&lines, process_path);
        if Self::path_has_entry(current.as_str(), dir) {
            return PathAddition::AlreadyPresent;
        }
        let k = find_line_with(&lines, REBUILD_PATH_PREFIX);
        let mut out = lines;
        if k < out.len() {
            let value = Self::path_from_lines(&out, "");
            let pieces = split_strings(value.as_str(), ':');
            let mut entries: Vec<String> = Vec::new();
            entries.push(String::from_str(dir));
            let mut i: usize = 0;
            while i < pieces.len()
                invariant
                    i <= pieces@.len(),
                    string_texts(entries@) == seq![dir@] + string_texts(pieces@).take(i as int),
                decreases pieces.len() - i,
            {
                let ghost prev = string_texts(entries@);
                entries.push(pieces[i].clone());
                assert(string_texts(entries@) =~= prev.push(string_texts(pieces@)[i as int]));
                assert(string_texts(pieces@).take(i + 1) =~= string_texts(pieces@).take(i as int).push(
                    string_texts(pieces@)[i as int],
                ));
                i = i + 1;
            }
            assert(string_texts(pieces@).take(pieces@.len() as int) =~= string_texts(pieces@));
            let line = Self::path_export_line(&entries);
            let ghost before = string_texts(out@);
            out.set(k, line);
            assert(string_texts(out@) =~= before.update(k as int, line@));
        } else {
            let mut entries: Vec<String> = Vec::new();
            entries.push(String::from_str(dir));
            entries.push(String::from_str("$PATH"));
            assert(string_texts(entries@) =~= seq![dir@, "$PATH"@]);
            let line = Self::path_export_line(&entries);
            let ghost before = string_texts(out@);
            out.push(line);
            assert(string_texts(out@) =~= before.push(line@));
        }
        PathAddition::Lines(out)
    }

    /// Removes `target` (as written, or `expanded`) from the profile's PATH
    /// line; the line goes when only `$PATH` would be left.
    pub fn remove_path_lines(lines: Vec<String>, target: &str, expanded: &str) -> (r: Vec<String>)
        ensures
            string_texts(r@) == path_after_remove(string_texts(lines@), target@, expanded@),
    {
        let ghost ls = string_texts(lines@);
        let k = find_line_with(&lines, REBUILD_PATH_PREFIX);
        if k >= lines.len() {
            return lines;
        }
        let value = Self::path_from_lines(&lines, "");
        let pieces = split_strings(value.as_str(), ':');
        let ghost ps = string_texts(pieces@);
        let ghost keep = other_entry(target@, expanded@);
        let ghost own = own_entry();
        let mut kept: Vec<String> = Vec::new();
        let mut own_count: usize = 0;
        let mut i: usize = 0;
        while i < pieces.len()
            invariant
                i <= pieces@.len(),
                ps == string_texts(pieces@),
                keep == other_entry(target@, expanded@),
                own == own_entry(),
                string_texts(kept@) == ps.take(i as int).filter(keep),
                own_count == ps.take(i as int).filter(keep).filter(own).len(),
                own_count <= i,
            decreases pieces.len() - i,
        {
            let p = &pieces[i];
            let ghost x = ps[i as int];
            let ghost t = ps.take(i as int);
            proof {
                assert(p@ == x);
                assert(t.push(x) =~= ps.take(i + 1));
                t.lemma_filter_push(x, keep);
                t.filter(keep).lemma_filter_push(x, own);
            }
            let is_expanded = str_eq(p.as_str(), expanded);
            let is_target = str_eq(p.as_str(), target);
            if !is_expanded && !is_target {
                assert(keep(x));
                let ghost prev = string_texts(kept@);
                kept.push(p.clone());
                assert(string_texts(kept@) =~= prev.push(x));
                assert(ps.take(i + 1).filter(keep) == t.filter(keep).push(x));
                let is_inherited = str_eq(p.as_str(), "$PATH");
                if !is_inherited {
                    assert(own(x));
                    own_count = own_count + 1;
                } else {
                    assert(!own(x));
                }
            } else {
                assert(!keep(x));
                assert(ps.take(i + 1).filter(keep) == t.filter(keep));
            }
            i = i + 1;
        }
        assert(ps.take(ps.len() as int) =~= ps);
        let mut out = lines;
        let ghost before = string_texts(out@);
        if own_count == 0 {
            out.remove(k);
            assert(string_texts(out@) =~= before.remove(k as int));
        } else {
            let line = Self::path_export_line(&kept);
            out.set(k, line);
            assert(string_texts(out@) =~= before.update(k as int, line@));
        }
        out
    }
}

// ───────────────────────── PATH line round trip ─────────────────────────

proof fn lemma_first_line_with_props(lines: Seq<Seq<char>>, prefix: Seq<char>)
    ensures
        0 <= first_line_with(lines, prefix) <= lines.len(),
        forall|j: int| 0 <= j < first_line_with(lines, prefix) ==> !starts_with(trim(#[trigger] lines[j]), prefix),
        first_line_with(lines, prefix) < lines.len() ==> starts_with(trim(lines[first_line_with(lines, prefix)]), prefix),
    decreases lines.len(),
{
    if lines.len() > 0 && !starts_with(trim(lines[0]), prefix) {
        let u = lines.drop_first();
        lemma_first_line_with_props(u, prefix);
        assert forall|j: int| 0 <= j < first_line_with(lines, prefix) implies !starts_with(trim(#[trigger] lines[j]), prefix) by {
            if j > 0 {
                assert(lines[j] == u[j - 1]);
            }
        }
        if first_line_with(lines, prefix) < lines.len() {
            assert(lines[first_line_with(lines, prefix)] == u[first_line_with(u, prefix)]);
        }
    }
}

proof fn lemma_without_char_concat(a: Seq<char>, b: Seq<char>, c: char)
    ensures
        without_char(a + b, c) == without_char(a, c) + without_char(b, c),
    decreases b.len(),
{
    if b.len() == 0 {
        assert(a + b =~= a);
        assert(without_char(a, c) + without_char(b, c) =~= without_char(a, c));
    } else {
        lemma_without_char_concat(a, b.drop_last(), c);
        assert((a + b).drop_last() =~= a + b.drop_last());
        assert((a + b).last() == b.last());
        if b.last() != c {
            assert(without_char(a, c) + without_char(b.drop_last(), c).push(b.last()) =~= (without_char(a, c)
                + without_char(b.drop_last(), c)).push(b.last()));
        }
    }
}

proof fn lemma_without_absent_char(s: Seq<char>, c: char)
    requires
        !s.contains(c),
    ensures
        without_char(s, c) == s,
    decreases s.len(),
{
    if s.len() > 0 {
        assert(!s.drop_last().contains(c)) by {
            if s.drop_last().contains(c) {
                let i = choose|i: int| 0 <= i < s.drop_last().len() && s.drop_last()[i] == c;
                assert(s[i] == c);
            }
        }
        lemma_without_absent_char(s.drop_last(), c);
        assert(s[s.len() - 1] == s.last());
        assert(s.drop_last().push(s.last()) =~= s);
    }
}

/// Texts and a separator without `c` join into a text without `c`.
proof fn lemma_joined_lacks(parts: Seq<Seq<char>>, sep: Seq<char>, c: char)
    requires
        forall|i: int| 0 <= i < parts.len() ==> !(#[trigger] parts[i]).contains(c),
        !sep.contains(c),
    ensures
        !crate::hook_cache::joined(parts, sep).contains(c),
    decreases parts.len(),
{
    if parts.len() > 1 {
        let front = parts.drop_last();
        assert forall|i: int| 0 <= i < front.len() implies !(#[trigger] front[i]).contains(c) by {
            assert(front[i] == parts[i]);
        }
        lemma_joined_lacks(front, sep, c);
        let j = crate::hook_cache::joined(front, sep);
        let l = parts[parts.len() - 1];
        assert(!l.contains(c));
        assert(!(j + sep + l).contains(c)) by {
            if (j + sep + l).contains(c) {
                let i = choose|i: int| 0 <= i < (j + sep + l).len() && (j + sep + l)[i] == c;
                if i < j.len() {
                    assert(j[i] == c);
                } else if i < j.len() + sep.len() {
                    assert(sep[i - j.len()] == c);
                } else {
                    assert(l[i - j.len() - sep.len()] == c);
                }
            }
        }
    } else if parts.len() == 1 {
        assert(!parts[0].contains(c));
    }
}

/// The value read back from a PATH line built from entries is their join,
/// and the line is its own trimmed form.
proof fn lemma_path_line_value(entries: Seq<Seq<char>>)
    requires
        forall|i: int| 0 <= i < entries.len() ==> !(#[trigger] entries[i]).contains('"'),
    ensures
        trim(path_line_text(entries)) == path_line_text(entries),
        starts_with(trim(path_line_text(entries)), REBUILD_PATH_PREFIX@),
        path_line_value(path_line_text(entries)) == crate::hook_cache::joined(entries, ":"@),
{
    reveal_strlit("export PATH=");
    reveal_strlit("\"");
    reveal_strlit(":");
    let j = crate::hook_cache::joined(entries, ":"@);
    let q = "\""@;
    let pre = REBUILD_PATH_PREFIX@;
    let line = pre + q + j + q;
    assert(path_line_text(entries) == line);
    assert(!":"@.contains('"')) by {
        if ":"@.contains('"') {
            let i = choose|i: int| 0 <= i < ":"@.len() && ":"@[i] == '"';
            assert(":"@[0] == ':');
        }
    }
    lemma_joined_lacks(entries, ":"@, '"');
    assert(line[0] == 'e');
    assert(!is_ws(line[0]));
    assert(trim_start(line) == line);
    assert(line.last() == '"');
    assert(!is_ws(line.last()));
    assert(trim_end(line) == line);
    assert(line.subrange(0, pre.len() as int) =~= pre);
    let rest = q + j + q;
    assert(line.skip(pre.len() as int) =~= rest);
    assert(rest[0] == '"');
    assert(!starts_with(rest, pre)) by {
        if starts_with(rest, pre) {
            assert(rest.subrange(0, pre.len() as int)[0] == pre[0]);
        }
    }
    assert(trim_start_matches(rest, pre) == rest);
    assert(trim_start_matches(line, pre) == rest);
    lemma_without_char_concat(q + j, q, '"');
    lemma_without_char_concat(q, j, '"');
    lemma_without_absent_char(j, '"');
    assert(without_char(q, '"') =~= Seq::<char>::empty()) by {
        assert(q == seq!['"']);
        assert(q.len() == 1 && q.last() == '"');
        assert(q.drop_last() =~= Seq::<char>::empty());
        assert(without_char(q.drop_last(), '"') == q.drop_last());
    }
    assert(without_char(rest, '"') =~= j);
}

/// The round trip when the profile has a PATH line.
proof fn lemma_round_trip_with_line(ls: Seq<Seq<char>>, process_path: Seq<char>, dir: Seq<char>, entries: Seq<Seq<char>>)
    requires
        path_after_add(ls, process_path, dir) is Some,
        !dir.contains(':'),
        !dir.contains('"'),
        first_line_with(ls, REBUILD_PATH_PREFIX@) < ls.len(),
        ls[first_line_with(ls, REBUILD_PATH_PREFIX@)] == path_line_text(entries),
        entries.len() >= 1,
        forall|i: int| 0 <= i < entries.len() ==> !(#[trigger] entries[i]).contains(':') && !entries[i].contains('"'),
        entries.filter(own_entry()).len() > 0,
    ensures
        path_after_remove(path_after_add(ls, process_path, dir)->0, dir, dir) == ls,
{
    let pre = REBUILD_PATH_PREFIX@;
    let k = first_line_with(ls, pre);
    lemma_first_line_with_props(ls, pre);
    reveal_strlit(":");
    assert(":"@ == seq![':']);
    lemma_path_line_value(entries);
    crate::hook_cache::lemma_split_joined(entries, ':');
    assert(split_on(path_line_value(ls[k]), ':') == entries);
    let es2 = seq![dir] + entries;
    let ls2 = path_after_add(ls, process_path, dir)->0;
    assert(ls2 == ls.update(k, path_line_text(es2)));
    assert forall|i: int| 0 <= i < es2.len() implies !(#[trigger] es2[i]).contains(':') && !es2[i].contains('"') by {
        if i > 0 {
            assert(es2[i] == entries[i - 1]);
        }
    }
    lemma_path_line_value(es2);
    assert forall|j: int| 0 <= j < k implies !starts_with(trim(#[trigger] ls2[j]), pre) by {
        assert(ls2[j] == ls[j]);
    }
    lemma_first_line_with(ls2, pre, k);
    crate::hook_cache::lemma_split_joined(es2, ':');
    assert(split_on(path_line_value(ls2[k]), ':') == es2);
    let keep = other_entry(dir, dir);
    assert forall|i: int| 0 <= i < entries.len() implies keep(#[trigger] entries[i]) by {
        assert(entries[i] != dir);
    }
    lemma_filter_all(entries, keep);
    lemma_filter_front(dir, entries, keep);
    assert(es2.filter(keep) == entries);
    assert(ls2.update(k, path_line_text(entries)) =~= ls);
}

/// The round trip when the profile has no PATH line.
proof fn lemma_round_trip_without_line(ls: Seq<Seq<char>>, process_path: Seq<char>, dir: Seq<char>)
    requires
        path_after_add(ls, process_path, dir) is Some,
        !dir.contains(':'),
        !dir.contains('"'),
        dir != "$PATH"@,
        first_line_with(ls, REBUILD_PATH_PREFIX@) == ls.len(),
    ensures
        path_after_remove(path_after_add(ls, process_path, dir)->0, dir, dir) == ls,
{
    let pre = REBUILD_PATH_PREFIX@;
    lemma_first_line_with_props(ls, pre);
    reveal_strlit("$PATH");
    reveal_strlit(":");
    assert(":"@ == seq![':']);
    let p = "$PATH"@;
    let es2 = seq![dir, p];
    let ls2 = path_after_add(ls, process_path, dir)->0;
    assert(ls2 == ls.push(path_line_text(es2)));
    assert(!p.contains(':') && !p.contains('"')) by {
        assert(p == seq!['$', 'P', 'A', 'T', 'H']);
        if p.contains(':') {
            let i = choose|i: int| 0 <= i < p.len() && p[i] == ':';
        }
        if p.contains('"') {
            let i = choose|i: int| 0 <= i < p.len() && p[i] == '"';
        }
    }
    assert forall|i: int| 0 <= i < es2.len() implies !(#[trigger] es2[i]).contains(':') && !es2[i].contains('"') by {}
    lemma_path_line_value(es2);
    assert forall|j: int| 0 <= j < ls.len() implies !starts_with(trim(#[trigger] ls2[j]), pre) by {
        assert(ls2[j] == ls[j]);
    }
    lemma_first_line_with(ls2, pre, ls.len() as int);
    crate::hook_cache::lemma_split_joined(es2, ':');
    assert(split_on(path_line_value(ls2[ls.len() as int]), ':') == es2);
    let keep = other_entry(dir, dir);
    let e = Seq::<Seq<char>>::empty();
    assert(e.filter(keep) =~= e);
    assert(e.filter(own_entry()) =~= e);
    e.lemma_filter_push(p, keep);
    e.lemma_filter_push(p, own_entry());
    assert(e.push(p) =~= seq![p]);
    lemma_filter_front(dir, seq![p], keep);
    assert(es2 =~= seq![dir] + seq![p]);
    assert(es2.filter(keep) == seq![p]);
    assert(seq![p].filter(own_entry()).len() == 0);
    assert(ls2.remove(ls.len() as int) =~= ls);
}

/// Adding a directory to the profile's PATH and then removing it gives the
/// profile back, when the PATH line (if any) is the one the library writes
/// for its entries and keeps an entry of its own, and neither the directory
/// nor any entry holds `:` or `"`.
pub proof fn lemma_path_add_then_remove(ls: Seq<Seq<char>>, process_path: Seq<char>, dir: Seq<char>, entries: Seq<Seq<char>>)
    requires
        path_after_add(ls, process_path, dir) is Some,
        !dir.contains(':'),
        !dir.contains('"'),
        dir != "$PATH"@,
        first_line_with(ls, REBUILD_PATH_PREFIX@) < ls.len() ==> {
            &&& ls[first_line_with(ls, REBUILD_PATH_PREFIX@)] == path_line_text(entries)
            &&& entries.len() >= 1
            &&& forall|i: int| 0 <= i < entries.len() ==> !(#[trigger] entries[i]).contains(':') && !entries[i].contains('"')
            &&& entries.filter(own_entry()).len() > 0
        },
    ensures
        path_after_remove(path_after_add(ls, process_path, dir)->0, dir, dir) == ls,
{
    lemma_first_line_with_props(ls, REBUILD_PATH_PREFIX@);
    if first_line_with(ls, REBUILD_PATH_PREFIX@) < ls.len() {
        lemma_round_trip_with_line(ls, process_path, dir, entries);
    } else {
        lemma_round_trip_without_line(ls, process_path, dir);
    }
}

/// Filtering by a predicate that every item meets keeps them all.
proof fn lemma_filter_all(s: Seq<Seq<char>>, f: spec_fn(Seq<char>) -> bool)
    requires
        forall|i: int| 0 <= i < s.len() ==> f(#[trigger] s[i]),
    ensures
        s.filter(f) == s,
    decreases s.len(),
{
    if s.len() > 0 {
        let front = s.drop_last();
        assert forall|i: int| 0 <= i < front.len() implies f(#[trigger] front[i]) by {
            assert(front[i] == s[i]);
        }
        lemma_filter_all(front, f);
        front.lemma_filter_push(s.last(), f);
        assert(f(s[s.len() - 1]));
        assert(front.push(s.last()) =~= s);
    }
}

/// Filtering out a first item that fails the predicate leaves the filter of the rest.
proof fn lemma_filter_front(x: Seq<char>, s: Seq<Seq<char>>, f: spec_fn(Seq<char>) -> bool)
    requires
        !f(x),
    ensures
        (seq![x] + s).filter(f) == s.filter(f),
    decreases s.len(),
{
    if s.len() == 0 {
        assert(seq![x] + s =~= Seq::<Seq<char>>::empty().push(x));
        Seq::<Seq<char>>::empty().lemma_filter_push(x, f);
        assert(Seq::<Seq<char>>::empty().filter(f) =~= Seq::<Seq<char>>::empty());
        assert(s =~= Seq::<Seq<char>>::empty());
    } else {
        lemma_filter_front(x, s.drop_last(), f);
        assert((seq![x] + s) =~= (seq![x] + s.drop_last()).push(s.last()));
        (seq![x] + s.drop_last()).lemma_filter_push(s.last(), f);
        s.drop_last().lemma_filter_push(s.last(), f);
        assert(s.drop_last().push(s.last()) =~= s);
    }
}

} // verus!
