//! The cache of directory sizes: directory → (size in bytes, modification
//! time in seconds). A size is reused while the directory's modification
//! time is unchanged. Measuring directories, reading modification times and
//! the cache file happen at the edge of the program.

use vstd::prelude::*;
use crate::hook_cache::{dir_pos, distinct_dirs, lemma_dir_pos, lemma_dir_pos_props};
use crate::text::str_eq;

verus! {

/// A measured size and the modification time it was measured at.
#[derive(Debug, Clone, Copy, Default, PartialEq, Eq, Structural)]
pub struct SizeEntry {
    pub bytes: u64,
    pub mtime_secs: u64,
}

/// The cache: directory → entry (no directory twice).
pub struct SizeCache {
    entries: Vec<(String, SizeEntry)>,
    dirty: bool,
}

/// The directories of the entries, in storage order.
pub open spec fn size_dirs(es: Seq<(String, SizeEntry)>) -> Seq<Seq<char>> {
    es.map_values(|e: (String, SizeEntry)| e.0@)
}

/// The size cached for a directory at a modification time, if any.
pub open spec fn cached_size(es: Seq<(String, SizeEntry)>, dir: Seq<char>, mtime: Option<u64>) -> Option<u64> {
    let i = dir_pos(size_dirs(es), dir);
    if i < es.len() && mtime == Some(es[i].1.mtime_secs) {
        Some(es[i].1.bytes)
    } else {
        None
    }
}

/// The entries after storing `e` for `dir` (replacing it in place, or appended).
pub open spec fn store_size(es: Seq<(String, SizeEntry)>, dir: Seq<char>, e: SizeEntry) -> Seq<(Seq<char>, SizeEntry)> {
    let ds = size_dirs(es);
    let i = dir_pos(ds, dir);
    let pairs = es.map_values(|p: (String, SizeEntry)| (p.0@, p.1));
    if i < ds.len() { pairs.update(i, (dir, e)) } else { pairs.push((dir, e)) }
}

/// The directories of (directory, entry) pairs of text.
pub open spec fn pair_dirs(ps: Seq<(Seq<char>, SizeEntry)>) -> Seq<Seq<char>> {
    ps.map_values(|p: (Seq<char>, SizeEntry)| p.0)
}

/// The entries after storing each given (directory, entry) in turn: a
/// directory already stored keeps its place and takes the later entry; a new
/// one is appended.
pub open spec fn size_loaded(given: Seq<(Seq<char>, SizeEntry)>) -> Seq<(Seq<char>, SizeEntry)>
    decreases given.len(),
{
    if given.len() == 0 {
        Seq::empty()
    } else {
        let prev = size_loaded(given.drop_last());
        let (k, e) = given.last();
        let ds = pair_dirs(prev);
        let i = dir_pos(ds, k);
        if i < ds.len() { prev.update(i, (k, e)) } else { prev.push((k, e)) }
    }
}

/// The entries as (directory, entry) pairs of text.
pub open spec fn size_pairs(es: Seq<(String, SizeEntry)>) -> Seq<(Seq<char>, SizeEntry)> {
    es.map_values(|p: (String, SizeEntry)| (p.0@, p.1))
}

/// The entries whose flag is set, in order.
pub open spec fn kept_sizes(es: Seq<(String, SizeEntry)>, keep: Seq<bool>) -> Seq<(String, SizeEntry)>
    decreases es.len(),
{
    if es.len() == 0 || keep.len() < es.len() {
        Seq::empty()
    } else {
        let prev = kept_sizes(es.drop_last(), keep.drop_last());
        if keep[es.len() - 1] { prev.push(es.last()) } else { prev }
    }
}

impl SizeCache {
    /// The entries (directory, entry).
    pub closed spec fn entries_spec(&self) -> Seq<(String, SizeEntry)> {
        self.entries@
    }

    /// Whether the cache has changes that are not saved.
    pub closed spec fn dirty_spec(&self) -> bool {
        self.dirty
    }

    /// No directory twice.
    pub open spec fn wf(&self) -> bool {
        distinct_dirs(size_dirs(self.entries_spec()))
    }

    /// An empty cache with nothing to save.
    pub fn empty() -> (c: SizeCache)
        ensures
            c.entries_spec().len() == 0,
            !c.dirty_spec(),
            c.wf(),
    {
        SizeCache { entries: Vec::new(), dirty: false }
    }

    /// A cache loaded from storage (a directory given twice keeps its last entry).
    pub fn from_entries(entries: Vec<(String, SizeEntry)>) -> (c: SizeCache)
        ensures
            c.wf(),
            !c.dirty_spec(),
            size_pairs(c.entries_spec()) == size_loaded(size_pairs(entries@)),
    {
        let ghost given = size_pairs(entries@);
        let ghost all = entries@;
        let mut c = SizeCache::empty();
        let mut es = entries;
        proof {
            assert(size_pairs(c.entries_spec()) =~= Seq::<(Seq<char>, SizeEntry)>::empty());
            assert(given.take(0) =~= Seq::<(Seq<char>, SizeEntry)>::empty());
            assert(all.skip(0) =~= all);
        }
        while es.len() > 0
            invariant
                c.wf(),
                given == size_pairs(all),
                es@.len() <= all.len(),
                es@ == all.skip(all.len() - es@.len()),
                size_pairs(c.entries_spec()) == size_loaded(given.take(all.len() - es@.len())),
            decreases es.len(),
        {
            let ghost n = all.len() - es@.len();
            let ghost before = c.entries_spec();
            let (d, e) = es.remove(0);
            proof {
                assert(all[n] == (d, e));
                assert(given[n] == (d@, e));
                assert(given.take(n + 1).drop_last() =~= given.take(n));
                assert(given.take(n + 1).last() == (d@, e));
                assert(es@ =~= all.skip(n + 1));
                assert(size_dirs(before) =~= pair_dirs(size_pairs(before)));
            }
            c.store(d, e);
        }
        proof {
            assert(given.take(all.len() as int) =~= given);
        }
        c.dirty = false;
        c
    }

    fn position(&self, dir: &str) -> (r: usize)
        ensures
            r as int == dir_pos(size_dirs(self.entries_spec()), dir@),
            r <= self.entries_spec().len(),
    {
        let ghost ds = size_dirs(self.entries@);
        let mut k: usize = 0;
        while k < self.entries.len() && !str_eq(self.entries[k].0.as_str(), dir)
            invariant
                ds == size_dirs(self.entries@),
                k <= self.entries@.len(),
                forall|j: int| 0 <= j < k ==> ds[j] != dir@,
            decreases self.entries.len() - k,
        {
            k = k + 1;
        }
        proof {
            lemma_dir_pos(ds, dir@, k as int);
        }
        k
    }

    /// The cached size of a directory, if it was measured at its current
    /// modification time (`mtime`, read by the caller).
    pub fn cached(&self, dir: &str, mtime: Option<u64>) -> (r: Option<u64>)
        ensures
            r == cached_size(self.entries_spec(), dir@, mtime),
    {
        let i = self.position(dir);
        if i < self.entries.len() {
            match mtime {
                Some(m) => {
                    if self.entries[i].1.mtime_secs == m {
                        return Some(self.entries[i].1.bytes);
                    }
                },
                None => {},
            }
        }
        None
    }

    fn store(&mut self, key: String, e: SizeEntry)
        requires
            old(self).wf(),
        ensures
            final(self).wf(),
            size_pairs(final(self).entries_spec()) == store_size(old(self).entries_spec(), key@, e),
            final(self).dirty_spec() == old(self).dirty_spec(),
    {
        let ghost ds = size_dirs(self.entries@);
        let ghost ps = size_pairs(self.entries@);
        let ghost k = key@;
        proof {
            lemma_dir_pos_props(ds, k);
        }
        let i = self.position(key.as_str());
        if i < self.entries.len() {
            self.entries.set(i, (key, e));
            assert(size_dirs(self.entries@) =~= ds.update(i as int, k));
            assert(size_pairs(self.entries@) =~= ps.update(i as int, (k, e)));
        } else {
            self.entries.push((key, e));
            assert(size_dirs(self.entries@) =~= ds.push(k));
            assert(size_pairs(self.entries@) =~= ps.push((k, e)));
        }
    }

    /// Records a measured size at a modification time (nothing is recorded
    /// when the time is unknown) and returns the size.
    pub fn record(&mut self, dir: &str, mtime: Option<u64>, bytes: u64) -> (r: u64)
        requires
            old(self).wf(),
        ensures
            r == bytes,
            final(self).wf(),
            match mtime {
                Some(m) => size_pairs(final(self).entries_spec()) == store_size(old(self).entries_spec(), dir@, SizeEntry { bytes, mtime_secs: m })
                    && final(self).dirty_spec(),
                None => final(self).entries_spec() == old(self).entries_spec() && final(self).dirty_spec() == old(self).dirty_spec(),
            },
    {
        match mtime {
            Some(m) => {
                self.store(String::from_str(dir), SizeEntry { bytes, mtime_secs: m });
                self.dirty = true;
            },
            None => {},
        }
        bytes
    }

    /// The size of a directory: the cached one when it is still valid,
    /// else `measured` (the caller's fresh measurement), which is recorded.
    pub fn resolve(&mut self, dir: &str, mtime: Option<u64>, measured: u64) -> (r: u64)
        requires
            old(self).wf(),
        ensures
            final(self).wf(),
            match cached_size(old(self).entries_spec(), dir@, mtime) {
                Some(b) => r == b && final(self).entries_spec() == old(self).entries_spec() && final(self).dirty_spec() == old(self).dirty_spec(),
                None => r == measured && match mtime {
                    Some(m) => size_pairs(final(self).entries_spec()) == store_size(old(self).entries_spec(), dir@, SizeEntry { bytes: measured, mtime_secs: m }),
                    None => final(self).entries_spec() == old(self).entries_spec(),
                },
            },
    {
        match self.cached(dir, mtime) {
            Some(b) => b,
            None => self.record(dir, mtime, measured),
        }
    }

    /// The stored entries (directory, size entry), in storage order.
    pub fn entries(&self) -> (r: Vec<(String, SizeEntry)>)
        ensures
            size_pairs(r@) == size_pairs(self.entries_spec()),
    {
        let mut r: Vec<(String, SizeEntry)> = Vec::new();
        let mut i: usize = 0;
        while i < self.entries.len()
            invariant
                i <= self.entries@.len(),
                size_pairs(r@) == size_pairs(self.entries@).take(i as int),
            decreases self.entries.len() - i,
        {
            let ghost prev = size_pairs(r@);
            r.push((self.entries[i].0.clone(), self.entries[i].1));
            assert(size_pairs(r@) =~= prev.push(size_pairs(self.entries@)[i as int]));
            assert(size_pairs(self.entries@).take(i + 1) =~= size_pairs(self.entries@).take(i as int).push(
                size_pairs(self.entries@)[i as int],
            ));
            i = i + 1;
        }
        assert(size_pairs(self.entries@).take(self.entries@.len() as int) =~= size_pairs(self.entries@));
        r
    }

    /// Whether there are changes to save.
    pub fn is_dirty(&self) -> (r: bool)
        ensures
            r == self.dirty_spec(),
    {
        self.dirty
    }

    /// The stored directories, in storage order (the caller checks which exist).
    pub fn dirs(&self) -> (r: Vec<String>)
        ensures
            crate::config::string_texts(r@) == size_dirs(self.entries_spec()),
    {
        let mut r: Vec<String> = Vec::new();
        let mut i: usize = 0;
        while i < self.entries.len()
            invariant
                i <= self.entries@.len(),
                crate::config::string_texts(r@) == size_dirs(self.entries@).take(i as int),
            decreases self.entries.len() - i,
        {
            let ghost prev = crate::config::string_texts(r@);
            r.push(self.entries[i].0.clone());
            assert(crate::config::string_texts(r@) =~= prev.push(size_dirs(self.entries@)[i as int]));
            i = i + 1;
            assert(size_dirs(self.entries@).take(i as int) =~= size_dirs(self.entries@).take(i - 1).push(size_dirs(self.entries@)[i - 1]));
        }
        assert(size_dirs(self.entries@).take(self.entries@.len() as int) =~= size_dirs(self.entries@));
        r
    }

    /// Drops the entries whose directory no longer exists (`exists[i]` tells
    /// whether the i-th stored directory does); marks the cache for saving
    /// when something was dropped.
    pub fn prune(&mut self, exists: &[bool])
        requires
            old(self).wf(),
            exists@.len() == old(self).entries_spec().len(),
        ensures
            final(self).wf(),
            final(self).entries_spec() == kept_sizes(old(self).entries_spec(), exists@),
            final(self).dirty_spec() == (old(self).dirty_spec() || kept_sizes(old(self).entries_spec(), exists@).len() != old(self).entries_spec().len()),
    {
        let ghost es = self.entries@;
        let mut kept: Vec<(String, SizeEntry)> = Vec::new();
        let n = self.entries.len();
        let mut i: usize = 0;
        while i < n
            invariant
                n == es.len(),
                self.entries@ == es,
                exists@.len() == es.len(),
                i <= n,
                kept@ == kept_sizes(es.take(i as int), exists@.take(i as int)),
            decreases n - i,
        {
            assert(es.take(i + 1).drop_last() =~= es.take(i as int));
            assert(exists@.take(i + 1).drop_last() =~= exists@.take(i as int));
            if exists[i] {
                let d = self.entries[i].0.clone();
                let e = self.entries[i].1;
                kept.push((d, e));
                assert(kept@.last() == es[i as int]);
            }
            i = i + 1;
        }
        assert(es.take(n as int) =~= es);
        assert(exists@.take(n as int) =~= exists@);
        self.entries = kept;
        if self.entries.len() != n {
            self.dirty = true;
        }
        proof {
            lemma_kept_sizes_distinct(es, exists@);
        }
    }
}

proof fn lemma_kept_sizes_distinct(es: Seq<(String, SizeEntry)>, keep: Seq<bool>)
    requires
        distinct_dirs(size_dirs(es)),
        keep.len() == es.len(),
    ensures
        distinct_dirs(size_dirs(kept_sizes(es, keep))),
        forall|x: (String, SizeEntry)| kept_sizes(es, keep).contains(x) ==> es.contains(x),
    decreases es.len(),
{
    if es.len() > 0 {
        let es2 = es.drop_last();
        let k2 = keep.drop_last();
        assert(distinct_dirs(size_dirs(es2))) by {
            assert forall|i: int, j: int| 0 <= i < j < size_dirs(es2).len() implies #[trigger] size_dirs(es2)[i] != #[trigger] size_dirs(es2)[j] by {
                assert(size_dirs(es2)[i] == size_dirs(es)[i]);
                assert(size_dirs(es2)[j] == size_dirs(es)[j]);
            }
        }
        lemma_kept_sizes_distinct(es2, k2);
        let prev = kept_sizes(es2, k2);
        if keep[es.len() - 1] {
            let w = prev.push(es.last());
            assert forall|x: (String, SizeEntry)| w.contains(x) implies es.contains(x) by {
                if x != es.last() {
                    let t = choose|t: int| 0 <= t < w.len() && w[t] == x;
                    assert(prev[t] == x);
                    assert(prev.contains(x));
                    assert(es2.contains(x));
                    let u = choose|u: int| 0 <= u < es2.len() && es2[u] == x;
                    assert(es[u] == x);
                } else {
                    assert(es[es.len() - 1] == x);
                }
            }
            assert forall|i: int, j: int| 0 <= i < j < size_dirs(w).len() implies #[trigger] size_dirs(w)[i] != #[trigger] size_dirs(w)[j] by {
                if j == w.len() - 1 {
                    assert(prev.contains(w[i])) by {
                        assert(prev[i] == w[i]);
                    }
                    assert(es2.contains(w[i]));
                    let u = choose|u: int| 0 <= u < es2.len() && es2[u] == w[i];
                    assert(es[u] == w[i]);
                    assert(size_dirs(es)[u] != size_dirs(es)[es.len() - 1]);
                } else {
                    assert(size_dirs(w)[i] == size_dirs(prev)[i]);
                    assert(size_dirs(w)[j] == size_dirs(prev)[j]);
                }
            }
        } else {
            assert forall|x: (String, SizeEntry)| prev.contains(x) implies es.contains(x) by {
                assert(es2.contains(x));
                let u = choose|u: int| 0 <= u < es2.len() && es2[u] == x;
                assert(es[u] == x);
            }
        }
    }
}

/// A size recorded at a modification time is what the cache gives for that
/// directory at that time.
pub proof fn lemma_record_then_cached(es: Seq<(String, SizeEntry)>, es2: Seq<(String, SizeEntry)>, dir: Seq<char>, m: u64, bytes: u64)
    requires
        distinct_dirs(size_dirs(es)),
        size_pairs(es2) == store_size(es, dir, SizeEntry { bytes, mtime_secs: m }),
    ensures
        cached_size(es2, dir, Some(m)) == Some(bytes),
{
    let ds = size_dirs(es);
    lemma_dir_pos_props(ds, dir);
    let i = dir_pos(ds, dir);
    let ds2 = size_dirs(es2);
    assert(ds2.len() == size_pairs(es2).len());
    assert forall|j: int| 0 <= j < ds2.len() implies ds2[j] == size_pairs(es2)[j].0 by {}
    if i < ds.len() {
        assert forall|j: int| 0 <= j < i implies ds2[j] != dir by {
            assert(size_pairs(es2)[j] == size_pairs(es)[j]);
            assert(ds2[j] == size_pairs(es2)[j].0);
            assert(ds[j] == size_pairs(es)[j].0);
        }
        assert(ds2[i] == dir);
        lemma_dir_pos(ds2, dir, i);
        assert(size_pairs(es2)[i].1 == es2[i].1);
    } else {
        assert forall|j: int| 0 <= j < ds.len() implies ds2[j] != dir by {
            assert(size_pairs(es2)[j] == size_pairs(es)[j]);
            assert(ds2[j] == size_pairs(es2)[j].0);
            assert(ds[j] == size_pairs(es)[j].0);
        }
        assert(ds2[ds.len() as int] == dir);
        lemma_dir_pos(ds2, dir, ds.len() as int);
        assert(size_pairs(es2)[ds.len() as int].1 == es2[ds.len() as int].1);
    }
}

} // verus!
