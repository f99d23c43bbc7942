//! Environment changes made by sdkm: PATH entries and SDK environment
//! variables, kept in the shell profile on Unix and in the system
//! environment on Windows. The text transformations are here; reading and
//! writing profiles, the registry and the process environment happen at the
//! edge of the program, through `EnvOperation`.

pub mod unix;
pub mod windows;

pub use unix::UnixEnvOperation;
pub use windows::WindowsEnvOperation;

use vstd::prelude::*;
use crate::platform::{Target, TargetOs};
use crate::config::string_texts;
use crate::text::{chars_of, nonempty_pieces, split_chars, split_nonempty, split_on, split_where, string_of};

verus! {

/// The persistent environment of the user (profile or registry).
pub trait EnvOperation {
    /// Sets environment variables (name, value).
    fn set_sdk_envs(&self, envs: &Vec<(String, String)>) -> Result<(), String>;
    /// Puts a directory in front of PATH.
    fn add_sdk_path(&self, sdk_path: &str) -> Result<(), String>;
    /// The current PATH.
    fn get_path(&self) -> Result<String, String>;
    /// Removes a directory from PATH.
    fn remove_sdk_path(&self, sdk_path: &str) -> Result<(), String>;
    /// The persisted value of a variable, if any.
    fn get_env_value(&self, key: &str) -> Result<Option<String>, String>;
    /// Removes a variable.
    fn unset_sdk_env(&self, key: &str) -> Result<(), String>;
    /// Restores variables to earlier values (`None`: remove it).
    fn restore_sdk_envs(&self, old_envs: &Vec<(String, Option<String>)>) -> Result<(), String>;
}

/// The PATH separator of a target: `;` on Windows, `:` elsewhere.
pub open spec fn path_sep(t: Target) -> char {
    if t.os == TargetOs::Windows { ';' } else { ':' }
}

/// The PATH separator of a target.
pub fn path_separator(target: Target) -> (r: &'static str)
    ensures
        r@ == seq![path_sep(target)],
{
    proof {
        reveal_strlit(";");
        reveal_strlit(":");
    }
    if target.is_windows() { ";" } else { ":" }
}

/// The non-empty entries of a PATH value, in order.
pub open spec fn path_entries(path: Seq<char>, t: Target) -> Seq<Seq<char>> {
    nonempty_pieces(split_on(path, path_sep(t)))
}

proof fn lemma_split_where_single(s: Seq<char>, c: char)
    ensures
        split_where(s, seq![c]) == split_on(s, c),
    decreases s.len(),
{
    if s.len() > 0 {
        lemma_split_where_single(s.drop_last(), c);
        assert(seq![c].contains(s.last()) == (s.last() == c)) by {
            if s.last() == c {
                assert(seq![c][0] == c);
            }
        }
    }
}

/// No piece of a split holds the separator.
proof fn lemma_split_pieces_lack_sep(s: Seq<char>, c: char)
    ensures
        forall|i: int| 0 <= i < split_on(s, c).len() ==> !(#[trigger] split_on(s, c)[i]).contains(c),
    decreases s.len(),
{
    if s.len() > 0 {
        let rest = split_on(s.drop_last(), c);
        lemma_split_pieces_lack_sep(s.drop_last(), c);
        crate::text::lemma_split_on_len(s.drop_last(), c);
        let p = split_on(s, c);
        assert forall|i: int| 0 <= i < p.len() implies !(#[trigger] p[i]).contains(c) by {
            if s.last() == c {
                if i < rest.len() {
                    assert(p[i] == rest[i]);
                } else {
                    assert(p[i] =~= Seq::<char>::empty());
                }
            } else if i < rest.len() - 1 {
                assert(p[i] == rest[i]);
            } else {
                let w = rest.last().push(s.last());
                assert(p[i] == w);
                assert(!rest[rest.len() - 1].contains(c));
                if w.contains(c) {
                    let j = choose|j: int| 0 <= j < w.len() && w[j] == c;
                    if j < w.len() - 1 {
                        assert(rest.last()[j] == c);
                    }
                }
            }
        }
    }
}

/// The non-empty pieces are pieces, non-empty; all pieces when none is empty.
proof fn lemma_nonempty_pieces(p: Seq<Seq<char>>)
    ensures
        forall|i: int| 0 <= i < nonempty_pieces(p).len() ==> (#[trigger] nonempty_pieces(p)[i]).len() > 0
            && p.contains(nonempty_pieces(p)[i]),
        (forall|i: int| 0 <= i < p.len() ==> (#[trigger] p[i]).len() > 0) ==> nonempty_pieces(p) == p,
    decreases p.len(),
{
    if p.len() > 0 {
        let q = p.drop_last();
        lemma_nonempty_pieces(q);
        let sub = nonempty_pieces(q);
        let r = nonempty_pieces(p);
        assert forall|i: int| 0 <= i < r.len() implies (#[trigger] r[i]).len() > 0 && p.contains(r[i]) by {
            if i < sub.len() {
                assert(r[i] == sub[i]);
                let j = choose|j: int| 0 <= j < q.len() && q[j] == sub[i];
                assert(p[j] == q[j]);
            } else {
                assert(r[i] == p.last());
                assert(p[p.len() - 1] == p.last());
            }
        }
        if forall|i: int| 0 <= i < p.len() ==> (#[trigger] p[i]).len() > 0 {
            assert forall|i: int| 0 <= i < q.len() implies (#[trigger] q[i]).len() > 0 by {
                assert(q[i] == p[i]);
            }
            assert(p[p.len() - 1].len() > 0);
            assert(q.push(p.last()) =~= p);
        }
    }
}

/// The entries of a PATH value are non-empty and hold no separator; when
/// the value has no empty entry (no leading, trailing or doubled
/// separator), joining them with the separator gives it back.
pub proof fn lemma_path_entries(path: Seq<char>, t: Target)
    ensures
        forall|i: int| 0 <= i < path_entries(path, t).len() ==> (#[trigger] path_entries(path, t)[i]).len() > 0
            && !path_entries(path, t)[i].contains(path_sep(t)),
        (forall|i: int| 0 <= i < split_on(path, path_sep(t)).len() ==> (#[trigger] split_on(path, path_sep(t))[i]).len() > 0)
            ==> crate::hook_cache::joined(path_entries(path, t), seq![path_sep(t)]) == path,
{
    let c = path_sep(t);
    let p = split_on(path, c);
    lemma_split_pieces_lack_sep(path, c);
    lemma_nonempty_pieces(p);
    assert forall|i: int| 0 <= i < path_entries(path, t).len() implies !(#[trigger] path_entries(path, t)[i]).contains(c) by {
        let e = path_entries(path, t)[i];
        assert(p.contains(e));
        let j = choose|j: int| 0 <= j < p.len() && p[j] == e;
        assert(!p[j].contains(c));
    }
    crate::config::keys::lemma_join_split(path, c);
}

/// The non-empty entries of a PATH value, split at the target's separator:
/// none is empty or holds the separator, and when the value has no empty
/// entry, joining them with the separator gives it back.
pub fn split_path_entries(path: &str, target: Target) -> (r: Vec<String>)
    ensures
        string_texts(r@) == path_entries(path@, target),
        forall|i: int| 0 <= i < r@.len() ==> (#[trigger] r@[i])@.len() > 0 && !r@[i]@.contains(path_sep(target)),
        (forall|i: int| 0 <= i < split_on(path@, path_sep(target)).len() ==> (#[trigger] split_on(path@, path_sep(target))[i]).len() > 0)
            ==> crate::hook_cache::joined(string_texts(r@), seq![path_sep(target)]) == path@,
{
    proof {
        lemma_path_entries(path@, target);
    }
    let v = chars_of(path);
    let seps = vec![if target.is_windows() { ';' } else { ':' }];
    proof {
        lemma_split_where_single(v@, path_sep(target));
        assert(seps@ =~= seq![path_sep(target)]);
    }
    let pieces = split_nonempty(&v, &seps);
    let mut r: Vec<String> = Vec::new();
    let mut i: usize = 0;
    while i < pieces.len()
        invariant
            i <= pieces@.len(),
            pieces@.len() == path_entries(path@, target).len(),
            forall|k: int| 0 <= k < pieces@.len() ==> (#[trigger] pieces@[k])@ == path_entries(path@, target)[k],
            string_texts(r@) == path_entries(path@, target).take(i as int),
        decreases pieces.len() - i,
    {
        let ghost prev = string_texts(r@);
        r.push(string_of(&pieces[i]));
        assert(string_texts(r@) =~= prev.push(path_entries(path@, target)[i as int]));
        i = i + 1;
        assert(path_entries(path@, target).take(i as int) =~= path_entries(path@, target).take(i - 1).push(path_entries(path@, target)[i - 1]));
    }
    assert(path_entries(path@, target).take(pieces@.len() as int) =~= path_entries(path@, target));
    assert forall|i: int| 0 <= i < r@.len() implies (#[trigger] r@[i])@ == path_entries(path@, target)[i] by {
        assert(string_texts(r@)[i] == r@[i]@);
    }
    r
}

} // verus!
