//! The cache of generated environment scripts, one per working directory.
//!
//! An entry is reused only for the same shell, the same cache schema, the
//! same session overrides (fingerprint) and, when it was generated from a
//! project config file, the same modification time of that file. Reading
//! and writing the cache file, and looking up modification times and
//! directory existence, happen at the edge of the program.

use vstd::prelude::*;
use crate::config::{name_codes, name_key, pair_texts, string_texts};
use crate::order::{is_stable_order, key_views, stable_sort_by_keys};
use crate::text::{append_str, chars_of, lemma_split_concat, lemma_split_no_sep, split_on, starts_with, starts_with_exec, str_eq};

verus! {

/// Bumped whenever the script format or the entry layout changes.
pub const CACHE_SCHEMA_VERSION: u128 = 4;

/// A cached environment script.
#[derive(Debug, Clone, Default)]
pub struct HookEntry {
    /// The project config file the script came from; empty when none.
    pub config_path: String,
    /// That file's modification time, in nanoseconds since the epoch.
    pub mtime_nanos: u128,
    /// The script.
    pub env_script: String,
    pub schema_version: u128,
    /// The shell the script is for.
    pub shell: u8,
    /// The session overrides in effect when it was generated.
    pub session_fingerprint: String,
}

/// The cache: working directory → entry (no directory twice).
pub struct HookCache {
    entries: Vec<(String, HookEntry)>,
    dirty: bool,
}

/// The cached entries by directory, in storage order.
pub open spec fn hook_dirs(es: Seq<(String, HookEntry)>) -> Seq<Seq<char>> {
    es.map_values(|e: (String, HookEntry)| e.0@)
}

/// No directory occurs twice.
pub open spec fn distinct_dirs(ds: Seq<Seq<char>>) -> bool {
    forall|i: int, j: int| 0 <= i < j < ds.len() ==> #[trigger] ds[i] != #[trigger] ds[j]
}

/// The position of a directory (`ds.len()` when absent).
pub open spec fn dir_pos(ds: Seq<Seq<char>>, d: Seq<char>) -> int
    decreases ds.len(),
{
    if ds.len() == 0 {
        0
    } else if ds[0] == d {
        0
    } else {
        1 + dir_pos(ds.drop_first(), d)
    }
}

pub proof fn lemma_dir_pos(ds: Seq<Seq<char>>, d: Seq<char>, k: int)
    requires
        0 <= k <= ds.len(),
        forall|j: int| 0 <= j < k ==> ds[j] != d,
        k == ds.len() || ds[k] == d,
    ensures
        dir_pos(ds, d) == k,
    decreases k,
{
    if k > 0 {
        let u = ds.drop_first();
        assert forall|j: int| 0 <= j < k - 1 implies u[j] != d by {
            assert(u[j] == ds[j + 1]);
        }
        if k < ds.len() {
            assert(u[k - 1] == ds[k]);
        }
        lemma_dir_pos(u, d, k - 1);
    }
}

/// The entries after storing each given (directory, entry) in turn: a
/// directory already stored keeps its place and takes the later entry; a new
/// one is appended.
pub open spec fn hook_loaded(given: Seq<(String, HookEntry)>) -> Seq<(String, HookEntry)>
    decreases given.len(),
{
    if given.len() == 0 {
        Seq::empty()
    } else {
        let prev = hook_loaded(given.drop_last());
        let (k, e) = given.last();
        let ds = hook_dirs(prev);
        let i = dir_pos(ds, k@);
        if i < ds.len() { prev.update(i, (k, e)) } else { prev.push((k, e)) }
    }
}

/// Whether an entry may be reused (`config_mtime`: the current modification
/// time of the entry's config file, if it can be read).
pub open spec fn entry_fresh(e: HookEntry, shell: u8, fingerprint: Seq<char>, config_mtime: Option<u128>) -> bool {
    &&& e.shell == shell
    &&& e.schema_version == CACHE_SCHEMA_VERSION
    &&& e.session_fingerprint@ == fingerprint
    &&& (e.config_path@.len() == 0 || config_mtime == Some(e.mtime_nanos))
}

impl HookCache {
    /// The entries (directory, entry).
    pub closed spec fn entries_spec(&self) -> Seq<(String, HookEntry)> {
        self.entries@
    }

    /// Whether the cache has changes that are not saved.
    pub closed spec fn dirty_spec(&self) -> bool {
        self.dirty
    }

    /// The cache is well formed: no directory twice.
    pub open spec fn wf(&self) -> bool {
        distinct_dirs(hook_dirs(self.entries_spec()))
    }

    /// An empty cache with nothing to save.
    pub fn empty() -> (c: HookCache)
        ensures
            c.entries_spec().len() == 0,
            !c.dirty_spec(),
            c.wf(),
    {
        HookCache { entries: Vec::new(), dirty: false }
    }

    /// A cache loaded from storage (`entries` as stored; a directory given
    /// twice keeps its last entry).
    pub fn from_entries(entries: Vec<(String, HookEntry)>) -> (c: HookCache)
        ensures
            c.wf(),
            !c.dirty_spec(),
            c.entries_spec() == hook_loaded(entries@),
    {
        let ghost given = entries@;
        let mut c = HookCache::empty();
        let mut es = entries;
        proof {
            assert(given.take(0) =~= Seq::<(String, HookEntry)>::empty());
            assert(given.skip(0) =~= given);
        }
        while es.len() > 0
            invariant
                c.wf(),
                es@.len() <= given.len(),
                es@ == given.skip(given.len() - es@.len()),
                c.entries_spec() == hook_loaded(given.take(given.len() - es@.len())),
            decreases es.len(),
        {
            let ghost n = given.len() - es@.len();
            let (d, e) = es.remove(0);
            proof {
                assert(given[n] == (d, e));
                assert(given.take(n + 1).drop_last() =~= given.take(n));
                assert(given.take(n + 1).last() == (d, e));
                assert(es@ =~= given.skip(n + 1));
            }
            c.put_entry(d, e);
        }
        proof {
            assert(given.take(given.len() as int) =~= given);
        }
        c.dirty = false;
        c
    }

    fn position(&self, dir: &str) -> (r: usize)
        ensures
            r as int == dir_pos(hook_dirs(self.entries_spec()), dir@),
            r <= self.entries_spec().len(),
    {
        let ghost ds = hook_dirs(self.entries@);
        let mut k: usize = 0;
        while k < self.entries.len() && !str_eq(self.entries[k].0.as_str(), dir)
            invariant
                ds == hook_dirs(self.entries@),
                k <= self.entries@.len(),
                forall|j: int| 0 <= j < k ==> ds[j] != dir@,
            decreases self.entries.len() - k,
        {
            k = k + 1;
        }
        proof {
            lemma_dir_pos(ds, dir@, k as int);
        }
        k
    }

    /// The entry stored for a directory, whatever its freshness.
    pub fn lookup(&self, pwd: &str) -> (r: Option<&HookEntry>)
        ensures
            ({
                let i = dir_pos(hook_dirs(self.entries_spec()), pwd@);
                &&& (r is Some <==> i < self.entries_spec().len())
                &&& (r matches Some(e) ==> *e == self.entries_spec()[i].1)
            }),
    {
        let i = self.position(pwd);
        if i < self.entries.len() {
            Some(&self.entries[i].1)
        } else {
            None
        }
    }

    /// The entry for a directory if it may be reused: same shell, current
    /// schema, same session fingerprint, and either no config file or one
    /// whose modification time (`config_mtime`, read by the caller for the
    /// entry's `config_path`) is unchanged.
    pub fn resolve(&self, pwd: &str, shell: u8, fingerprint: &str, config_mtime: Option<u128>) -> (r: Option<&HookEntry>)
        ensures
            ({
                let i = dir_pos(hook_dirs(self.entries_spec()), pwd@);
                &&& (r is Some <==> i < self.entries_spec().len() && entry_fresh(self.entries_spec()[i].1, shell, fingerprint@, config_mtime))
                &&& (r matches Some(e) ==> *e == self.entries_spec()[i].1)
            }),
    {
        let e = match self.lookup(pwd) {
            Some(e) => e,
            None => {
                return None;
            },
        };
        if e.shell != shell || e.schema_version != CACHE_SCHEMA_VERSION || !str_eq(e.session_fingerprint.as_str(), fingerprint) {
            return None;
        }
        if e.config_path.unicode_len() == 0 {
            return Some(e);
        }
        match config_mtime {
            Some(m) => {
                if m == e.mtime_nanos {
                    Some(e)
                } else {
                    None
                }
            },
            None => None,
        }
    }

    fn put_entry(&mut self, key: String, entry: HookEntry)
        requires
            old(self).wf(),
        ensures
            final(self).wf(),
            ({
                let ds = hook_dirs(old(self).entries_spec());
                let i = dir_pos(ds, key@);
                final(self).entries_spec() == if i < ds.len() {
                    old(self).entries_spec().update(i, (key, entry))
                } else {
                    old(self).entries_spec().push((key, entry))
                }
            }),
    {
        let ghost ds = hook_dirs(self.entries@);
        let i = self.position(key.as_str());
        let ghost k = key@;
        if i < self.entries.len() {
            self.entries.set(i, (key, entry));
            assert(hook_dirs(self.entries@) =~= ds.update(i as int, k));
            proof {
                lemma_dir_pos_props(ds, k);
            }
        } else {
            self.entries.push((key, entry));
            assert(hook_dirs(self.entries@) =~= ds.push(k));
            proof {
                lemma_dir_pos_props(ds, k);
            }
        }
    }

    /// Stores the entry for a directory (replacing any previous one) and
    /// marks the cache for saving.
    pub fn put(&mut self, pwd: &str, entry: HookEntry)
        requires
            old(self).wf(),
        ensures
            final(self).wf(),
            final(self).dirty_spec(),
            ({
                let ds = hook_dirs(old(self).entries_spec());
                let i = dir_pos(ds, pwd@);
                final(self).entries_spec() == if i < ds.len() {
                    old(self).entries_spec().update(i, (final(self).entries_spec()[i].0, entry))
                } else {
                    old(self).entries_spec().push((final(self).entries_spec()[ds.len() as int].0, entry))
                }
            }),
            hook_dirs(final(self).entries_spec()) == ({
                let ds = hook_dirs(old(self).entries_spec());
                if dir_pos(ds, pwd@) < ds.len() { ds } else { ds.push(pwd@) }
            }),
            dir_pos(hook_dirs(final(self).entries_spec()), pwd@) < final(self).entries_spec().len(),
            final(self).entries_spec()[dir_pos(hook_dirs(final(self).entries_spec()), pwd@)].1 == entry,
    {
        let ghost ds = hook_dirs(self.entries@);
        proof {
            lemma_dir_pos_props(ds, pwd@);
        }
        self.put_entry(String::from_str(pwd), entry);
        self.dirty = true;
        proof {
            let i = dir_pos(ds, pwd@);
            if i < ds.len() {
                assert(hook_dirs(self.entries@) =~= ds);
            } else {
                assert(hook_dirs(self.entries@) =~= ds.push(pwd@));
                assert forall|j: int| 0 <= j < ds.len() implies hook_dirs(self.entries@)[j] != pwd@ by {
                    assert(hook_dirs(self.entries@)[j] == ds[j]);
                }
                lemma_dir_pos(hook_dirs(self.entries@), pwd@, ds.len() as int);
            }
        }
    }

    /// The stored directories, in storage order (the caller checks which exist).
    pub fn dirs(&self) -> (r: Vec<String>)
        ensures
            crate::config::string_texts(r@) == hook_dirs(self.entries_spec()),
    {
        let mut r: Vec<String> = Vec::new();
        let mut i: usize = 0;
        while i < self.entries.len()
            invariant
                i <= self.entries@.len(),
                crate::config::string_texts(r@) == hook_dirs(self.entries@).take(i as int),
            decreases self.entries.len() - i,
        {
            let ghost prev = crate::config::string_texts(r@);
            r.push(self.entries[i].0.clone());
            assert(crate::config::string_texts(r@) =~= prev.push(hook_dirs(self.entries@)[i as int]));
            i = i + 1;
            assert(hook_dirs(self.entries@).take(i as int) =~= hook_dirs(self.entries@).take(i - 1).push(hook_dirs(self.entries@)[i - 1]));
        }
        assert(hook_dirs(self.entries@).take(self.entries@.len() as int) =~= hook_dirs(self.entries@));
        r
    }

    /// Drops the entries whose directory no longer exists (`exists[i]` tells
    /// whether the i-th stored directory does); marks the cache for saving
    /// when something was dropped.
    pub fn prune(&mut self, exists: &[bool])
        requires
            old(self).wf(),
            exists@.len() == old(self).entries_spec().len(),
        ensures
            final(self).wf(),
            final(self).entries_spec() == kept_hooks(old(self).entries_spec(), exists@),
            final(self).dirty_spec() == (old(self).dirty_spec() || kept_hooks(old(self).entries_spec(), exists@).len() != old(self).entries_spec().len()),
    {
        let ghost es = self.entries@;
        let mut kept: Vec<(String, HookEntry)> = Vec::new();
        let mut old_entries = Vec::new();
        std::mem::swap(&mut old_entries, &mut self.entries);
        let n = old_entries.len();
        let mut i: usize = 0;
        while i < n
            invariant
                n == es.len(),
                exists@.len() == es.len(),
                i <= n,
                old_entries@ == es.skip(i as int),
                kept@ == kept_hooks(es.take(i as int), exists@.take(i as int)),
            decreases n - i,
        {
            let item = old_entries.remove(0);
            assert(item == es[i as int]);
            assert(es.take(i + 1).drop_last() =~= es.take(i as int));
            assert(exists@.take(i + 1).drop_last() =~= exists@.take(i as int));
            if exists[i] {
                kept.push(item);
            }
            i = i + 1;
            assert(old_entries@ =~= es.skip(i as int));
        }
        assert(es.take(n as int) =~= es);
        assert(exists@.take(n as int) =~= exists@);
        let before = n;
        self.entries = kept;
        if self.entries.len() != before {
            self.dirty = true;
        }
        proof {
            lemma_kept_distinct(es, exists@);
        }
    }
}

/// The entries whose flag is set, in order.
pub open spec fn kept_hooks(es: Seq<(String, HookEntry)>, keep: Seq<bool>) -> Seq<(String, HookEntry)>
    decreases es.len(),
{
    if es.len() == 0 || keep.len() < es.len() {
        Seq::empty()
    } else {
        let prev = kept_hooks(es.drop_last(), keep.drop_last());
        if keep[es.len() - 1] { prev.push(es.last()) } else { prev }
    }
}

pub proof fn lemma_dir_pos_props(ds: Seq<Seq<char>>, d: Seq<char>)
    ensures
        0 <= dir_pos(ds, d) <= ds.len(),
        forall|j: int| 0 <= j < dir_pos(ds, d) ==> ds[j] != d,
        dir_pos(ds, d) < ds.len() ==> ds[dir_pos(ds, d)] == d,
    decreases ds.len(),
{
    if ds.len() > 0 && ds[0] != d {
        let u = ds.drop_first();
        lemma_dir_pos_props(u, d);
        assert forall|j: int| 0 <= j < dir_pos(ds, d) implies ds[j] != d by {
            if j > 0 {
                assert(ds[j] == u[j - 1]);
            }
        }
    }
}

proof fn lemma_kept_distinct(es: Seq<(String, HookEntry)>, keep: Seq<bool>)
    requires
        distinct_dirs(hook_dirs(es)),
        keep.len() == es.len(),
    ensures
        distinct_dirs(hook_dirs(kept_hooks(es, keep))),
        forall|x: (String, HookEntry)| kept_hooks(es, keep).contains(x) ==> es.contains(x),
    decreases es.len(),
{
    if es.len() > 0 {
        let es2 = es.drop_last();
        let k2 = keep.drop_last();
        assert(distinct_dirs(hook_dirs(es2))) by {
            assert forall|i: int, j: int| 0 <= i < j < hook_dirs(es2).len() implies #[trigger] hook_dirs(es2)[i] != #[trigger] hook_dirs(es2)[j] by {
                assert(hook_dirs(es2)[i] == hook_dirs(es)[i]);
                assert(hook_dirs(es2)[j] == hook_dirs(es)[j]);
            }
        }
        lemma_kept_distinct(es2, k2);
        let prev = kept_hooks(es2, k2);
        if keep[es.len() - 1] {
            let w = prev.push(es.last());
            assert forall|x: (String, HookEntry)| w.contains(x) implies es.contains(x) by {
                if x != es.last() {
                    let t = choose|t: int| 0 <= t < w.len() && w[t] == x;
                    assert(prev[t] == x);
                    assert(prev.contains(x));
                    assert(es2.contains(x));
                    let u = choose|u: int| 0 <= u < es2.len() && es2[u] == x;
                    assert(es[u] == x);
                } else {
                    assert(es[es.len() - 1] == x);
                }
            }
            assert forall|i: int, j: int| 0 <= i < j < hook_dirs(w).len() implies #[trigger] hook_dirs(w)[i] != #[trigger] hook_dirs(w)[j] by {
                if j == w.len() - 1 {
                    assert(prev.contains(w[i])) by {
                        assert(prev[i] == w[i]);
                    }
                    assert(es2.contains(w[i]));
                    let u = choose|u: int| 0 <= u < es2.len() && es2[u] == w[i];
                    assert(es[u] == w[i]);
                    assert(hook_dirs(es)[u] != hook_dirs(es)[es.len() - 1]);
                } else {
                    assert(hook_dirs(w)[i] == hook_dirs(prev)[i]);
                    assert(hook_dirs(w)[j] == hook_dirs(prev)[j]);
                }
            }
        } else {
            assert forall|x: (String, HookEntry)| prev.contains(x) implies es.contains(x) by {
                assert(es2.contains(x));
                let u = choose|u: int| 0 <= u < es2.len() && es2[u] == x;
                assert(es[u] == x);
            }
        }
    }
}

// ───────────────────────── session fingerprint ─────────────────────────

/// The `name=value` texts of the variables whose name starts with `prefix`,
/// in order.
pub open spec fn session_pairs(vars: Seq<(Seq<char>, Seq<char>)>, prefix: Seq<char>) -> Seq<Seq<char>>
    decreases vars.len(),
{
    if vars.len() == 0 {
        Seq::empty()
    } else {
        let r = session_pairs(vars.drop_last(), prefix);
        let (k, v) = vars.last();
        if starts_with(k, prefix) {
            r.push(k + "="@ + v)
        } else {
            r
        }
    }
}

/// Texts joined with `sep` between them.
pub open spec fn joined(parts: Seq<Seq<char>>, sep: Seq<char>) -> Seq<char>
    decreases parts.len(),
{
    if parts.len() == 0 {
        Seq::empty()
    } else if parts.len() == 1 {
        parts[0]
    } else {
        joined(parts.drop_last(), sep) + sep + parts.last()
    }
}

/// The sort keys of texts: their character codes.
pub open spec fn text_keys(parts: Seq<Seq<char>>) -> Seq<Seq<u32>> {
    parts.map_values(|t: Seq<char>| name_codes(t))
}

pub(crate) fn joined_exec(parts: &Vec<String>, sep: &str) -> (r: String)
    ensures
        r@ == joined(string_texts(parts@), sep@),
{
    let ghost ps = string_texts(parts@);
    let mut r = String::new();
    let mut i: usize = 0;
    while i < parts.len()
        invariant
            i <= parts@.len(),
            ps == string_texts(parts@),
            r@ == joined(ps.take(i as int), sep@),
        decreases parts.len() - i,
    {
        assert(ps.take(i + 1).drop_last() =~= ps.take(i as int));
        if i > 0 {
            append_str(&mut r, sep);
        } else {
            assert(ps.take(0) =~= Seq::<Seq<char>>::empty());
        }
        append_str(&mut r, parts[i].as_str());
        i = i + 1;
    }
    assert(ps.take(parts@.len() as int) =~= ps);
    r
}

/// `r` is the fingerprint of the session overrides among `vars`: their
/// `name=value` texts in a stable order by character codes, joined with `;`.
pub open spec fn is_session_fingerprint(vars: Seq<(Seq<char>, Seq<char>)>, prefix: Seq<char>, r: Seq<char>) -> bool {
    let parts = session_pairs(vars, prefix);
    exists|p: Seq<int>| #[trigger] is_stable_order(text_keys(parts), p, false)
        && r == joined(p.map_values(|i: int| parts[i]), ";"@)
}

/// No text holds the character.
pub open spec fn none_contains(parts: Seq<Seq<char>>, c: char) -> bool {
    forall|i: int| 0 <= i < parts.len() ==> !(#[trigger] parts[i]).contains(c)
}

/// Each override text holds at least its `=`.
proof fn lemma_session_pairs_nonempty(vars: Seq<(Seq<char>, Seq<char>)>, prefix: Seq<char>)
    ensures
        forall|i: int| 0 <= i < session_pairs(vars, prefix).len() ==> (#[trigger] session_pairs(vars, prefix)[i]).len() > 0,
    decreases vars.len(),
{
    if vars.len() > 0 {
        lemma_session_pairs_nonempty(vars.drop_last(), prefix);
        reveal_strlit("=");
        let prev = session_pairs(vars.drop_last(), prefix);
        let (k, v) = vars.last();
        let t = k + "="@ + v;
        assert(t.len() > 0);
        if starts_with(k, prefix) {
            assert forall|i: int| 0 <= i < prev.push(t).len() implies (#[trigger] prev.push(t)[i]).len() > 0 by {
                if i < prev.len() {
                    assert(prev.push(t)[i] == prev[i]);
                }
            }
        }
    }
}

/// Texts without the separator, joined with it, split back into themselves.
pub(crate) proof fn lemma_split_joined(parts: Seq<Seq<char>>, sep: char)
    requires
        parts.len() >= 1,
        none_contains(parts, sep),
    ensures
        split_on(joined(parts, seq![sep]), sep) == parts,
    decreases parts.len(),
{
    if parts.len() == 1 {
        assert(!parts[0].contains(sep));
        lemma_split_no_sep(parts[0], sep);
        assert(parts =~= seq![parts[0]]);
    } else {
        let front = parts.drop_last();
        assert(none_contains(front, sep)) by {
            assert forall|i: int| 0 <= i < front.len() implies !(#[trigger] front[i]).contains(sep) by {
                assert(front[i] == parts[i]);
            }
        }
        lemma_split_joined(front, sep);
        assert(!parts[parts.len() - 1].contains(sep));
        lemma_split_no_sep(parts.last(), sep);
        lemma_split_concat(joined(front, seq![sep]), parts.last(), sep);
        assert(joined(parts, seq![sep]) == joined(front, seq![sep]) + seq![sep] + parts.last());
        assert(front + seq![parts.last()] =~= parts);
    }
}

/// Joining non-empty texts gives the empty text only for no texts.
proof fn lemma_joined_empty(parts: Seq<Seq<char>>, sep: Seq<char>)
    requires
        forall|i: int| 0 <= i < parts.len() ==> (#[trigger] parts[i]).len() > 0,
    ensures
        (joined(parts, sep).len() == 0) == (parts.len() == 0),
    decreases parts.len(),
{
    if parts.len() > 1 {
        assert(parts[parts.len() - 1].len() > 0);
    } else if parts.len() == 1 {
        assert(parts[0].len() > 0);
    }
}

/// Non-empty texts without the separator are told apart by their join.
proof fn lemma_joined_injective(a: Seq<Seq<char>>, b: Seq<Seq<char>>, sep: char)
    requires
        none_contains(a, sep),
        none_contains(b, sep),
        forall|i: int| 0 <= i < a.len() ==> (#[trigger] a[i]).len() > 0,
        forall|i: int| 0 <= i < b.len() ==> (#[trigger] b[i]).len() > 0,
        joined(a, seq![sep]) == joined(b, seq![sep]),
    ensures
        a == b,
{
    lemma_joined_empty(a, seq![sep]);
    lemma_joined_empty(b, seq![sep]);
    if a.len() == 0 {
        assert(a =~= b);
    } else {
        lemma_split_joined(a, sep);
        lemma_split_joined(b, sep);
    }
}

/// A stable order reaches every position.
proof fn lemma_stable_order_onto(keys: Seq<Seq<u32>>, p: Seq<int>, desc: bool, i: int)
    requires
        is_stable_order(keys, p, desc),
        0 <= i < keys.len(),
    ensures
        exists|k: int| 0 <= k < p.len() && p[k] == i,
{
    assert(p.no_duplicates()) by {
        assert forall|x: int, y: int| 0 <= x < p.len() && 0 <= y < p.len() && x != y implies p[x] != p[y] by {
            if x < y {
                assert(p[x] != p[y]);
            } else {
                assert(p[y] != p[x]);
            }
        }
    }
    p.unique_seq_to_set();
    let range = vstd::set_lib::set_int_range(0, keys.len() as int);
    vstd::set_lib::lemma_int_range(0, keys.len() as int);
    assert(p.to_set().subset_of(range)) by {
        assert forall|x: int| p.to_set().contains(x) implies range.contains(x) by {
            let k = choose|k: int| 0 <= k < p.len() && p[k] == x;
            assert(0 <= p[k] < keys.len());
        }
    }
    vstd::seq_lib::seq_to_set_is_finite(p);
    vstd::set_lib::lemma_subset_equality(p.to_set(), range);
    assert(range.contains(i));
    assert(p.to_set().contains(i));
}

/// Any change of a session override changes the fingerprint: two variable
/// lists with the same fingerprint have the same `name=value` overrides,
/// provided no override text contains `;` (which separates them).
pub proof fn lemma_fingerprint_tells_overrides(
    vars1: Seq<(Seq<char>, Seq<char>)>,
    vars2: Seq<(Seq<char>, Seq<char>)>,
    prefix: Seq<char>,
    r: Seq<char>,
)
    requires
        is_session_fingerprint(vars1, prefix, r),
        is_session_fingerprint(vars2, prefix, r),
        none_contains(session_pairs(vars1, prefix), ';'),
        none_contains(session_pairs(vars2, prefix), ';'),
    ensures
        forall|t: Seq<char>| session_pairs(vars1, prefix).contains(t) <==> session_pairs(vars2, prefix).contains(t),
{
    let a = session_pairs(vars1, prefix);
    let b = session_pairs(vars2, prefix);
    let p1 = choose|p: Seq<int>| #[trigger] is_stable_order(text_keys(a), p, false)
        && r == joined(p.map_values(|i: int| a[i]), ";"@);
    let p2 = choose|p: Seq<int>| #[trigger] is_stable_order(text_keys(b), p, false)
        && r == joined(p.map_values(|i: int| b[i]), ";"@);
    let s1 = p1.map_values(|i: int| a[i]);
    let s2 = p2.map_values(|i: int| b[i]);
    lemma_session_pairs_nonempty(vars1, prefix);
    lemma_session_pairs_nonempty(vars2, prefix);
    reveal_strlit(";");
    assert(";"@ == seq![';']);
    assert(none_contains(s1, ';') && forall|i: int| 0 <= i < s1.len() ==> (#[trigger] s1[i]).len() > 0) by {
        assert forall|i: int| 0 <= i < s1.len() implies !(#[trigger] s1[i]).contains(';') && s1[i].len() > 0 by {
            assert(0 <= p1[i] < a.len());
        }
    }
    assert(none_contains(s2, ';') && forall|i: int| 0 <= i < s2.len() ==> (#[trigger] s2[i]).len() > 0) by {
        assert forall|i: int| 0 <= i < s2.len() implies !(#[trigger] s2[i]).contains(';') && s2[i].len() > 0 by {
            assert(0 <= p2[i] < b.len());
        }
    }
    lemma_joined_injective(s1, s2, ';');
    assert forall|t: Seq<char>| a.contains(t) implies b.contains(t) by {
        let i = choose|i: int| 0 <= i < a.len() && a[i] == t;
        lemma_stable_order_onto(text_keys(a), p1, false, i);
        let k = choose|k: int| 0 <= k < p1.len() && p1[k] == i;
        assert(s1[k] == t);
        assert(s2[k] == b[p2[k]]);
        assert(0 <= p2[k] < b.len());
    }
    assert forall|t: Seq<char>| b.contains(t) implies a.contains(t) by {
        let i = choose|i: int| 0 <= i < b.len() && b[i] == t;
        lemma_stable_order_onto(text_keys(b), p2, false, i);
        let k = choose|k: int| 0 <= k < p2.len() && p2[k] == i;
        assert(s2[k] == t);
        assert(s1[k] == a[p1[k]]);
        assert(0 <= p1[k] < a.len());
    }
}

/// The fingerprint of the session overrides among `vars` (the process
/// environment): the `name=value` of every variable whose name starts with
/// `prefix`, sorted, joined with `;`; empty when there is none. Any change of
/// an override changes it, which makes cached scripts stale.
pub fn session_fingerprint(vars: &Vec<(String, String)>, prefix: &str) -> (r: String)
    ensures
        is_session_fingerprint(pair_texts(vars@), prefix@, r@),
{
    let ghost vs = pair_texts(vars@);
    let pv = chars_of(prefix);
    let mut parts: Vec<String> = Vec::new();
    let mut keys: Vec<Vec<u32>> = Vec::new();
    let mut i: usize = 0;
    while i < vars.len()
        invariant
            i <= vars@.len(),
            vs == pair_texts(vars@),
            pv@ == prefix@,
            string_texts(parts@) == session_pairs(vs.take(i as int), prefix@),
            key_views(keys@) == text_keys(string_texts(parts@)),
        decreases vars.len() - i,
    {
        assert(vs.take(i + 1).drop_last() =~= vs.take(i as int));
        assert(vs.take(i + 1).last() == (vars@[i as int].0@, vars@[i as int].1@));
        let kv = chars_of(vars[i].0.as_str());
        if starts_with_exec(&kv, &pv) {
            let mut t = vars[i].0.clone();
            append_str(&mut t, "=");
            append_str(&mut t, vars[i].1.as_str());
            let key = name_key(t.as_str());
            let ghost before = parts@;
            let ghost kbefore = keys@;
            parts.push(t);
            keys.push(key);
            assert(string_texts(parts@) =~= string_texts(before).push(t@));
            assert(key_views(keys@) =~= key_views(kbefore).push(key@));
            assert(text_keys(string_texts(parts@)) =~= text_keys(string_texts(before)).push(name_codes(t@)));
        }
        i = i + 1;
    }
    assert(vs.take(vars@.len() as int) =~= vs);
    let ghost pt = string_texts(parts@);
    let ghost ks = key_views(keys@);
    let sorted = stable_sort_by_keys(parts, keys, false);
    let r = joined_exec(&sorted, ";");
    proof {
        let p = choose|p: Seq<int>| #[trigger] is_stable_order(ks, p, false) && forall|k: int| 0 <= k < sorted@.len() ==> sorted@[k] == parts@[#[trigger] p[k]];
        assert(string_texts(sorted@) =~= p.map_values(|k: int| pt[k]));
    }
    r
}

} // verus!
