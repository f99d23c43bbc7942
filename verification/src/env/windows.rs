//! The system PATH on Windows: entries separated by `;`, compared without
//! regard to ASCII case.

use vstd::prelude::*;
use crate::text::{append_str, ascii_lower, chars_of, split_chars, split_on, string_of};

verus! {

/// Environment changes persisted in the Windows system environment.
pub struct WindowsEnvOperation;

/// Two texts are equal ignoring ASCII case (`str::eq_ignore_ascii_case`).
pub open spec fn eq_ignore_ascii_case(a: Seq<char>, b: Seq<char>) -> bool {
    a.len() == b.len() && forall|i: int| 0 <= i < a.len() ==> ascii_lower(#[trigger] a[i]) == ascii_lower(b[i])
}

fn lower_char(c: char) -> (r: char)
    ensures
        r == ascii_lower(c),
{
    if 'A' <= c && c <= 'Z' {
        ((c as u8) + 32) as char
    } else {
        c
    }
}

fn eq_ignore_case_chars(a: &Vec<char>, b: &Vec<char>) -> (r: bool)
    ensures
        r == eq_ignore_ascii_case(a@, b@),
{
    if a.len() != b.len() {
        return false;
    }
    let mut i: usize = 0;
    while i < a.len()
        invariant
            a@.len() == b@.len(),
            i <= a@.len(),
            forall|j: int| 0 <= j < i ==> ascii_lower(#[trigger] a@[j]) == ascii_lower(b@[j]),
        decreases a.len() - i,
    {
        if lower_char(a[i]) != lower_char(b[i]) {
            return false;
        }
        i = i + 1;
    }
    true
}

/// Some entry equals `p` ignoring ASCII case.
pub open spec fn has_entry(entries: Seq<Seq<char>>, p: Seq<char>) -> bool {
    exists|i: int| 0 <= i < entries.len() && eq_ignore_ascii_case(#[trigger] entries[i], p)
}

/// The entries joined with `;`.
pub open spec fn join_semicolon(es: Seq<Seq<char>>) -> Seq<char>
    decreases es.len(),
{
    if es.len() == 0 {
        Seq::<char>::empty()
    } else if es.len() == 1 {
        es[0]
    } else {
        join_semicolon(es.drop_last()) + seq![';'] + es.last()
    }
}

/// The entries that differ from `p` (ignoring ASCII case), in order.
pub open spec fn entries_without(es: Seq<Seq<char>>, p: Seq<char>) -> Seq<Seq<char>>
    decreases es.len(),
{
    if es.len() == 0 {
        es
    } else {
        let prev = entries_without(es.drop_last(), p);
        if eq_ignore_ascii_case(es.last(), p) { prev } else { prev.push(es.last()) }
    }
}

impl WindowsEnvOperation {
    /// The PATH value with `sdk_path` put in front, or `None` when it is
    /// already an entry (ignoring ASCII case).
    pub fn path_with_entry(current: &str, sdk_path: &str) -> (r: Option<String>)
        ensures
            has_entry(split_on(current@, ';'), sdk_path@) <==> r is None,
            r matches Some(s) ==> s@ == sdk_path@ + seq![';'] + current@,
    {
        let cv = chars_of(current);
        let pv = chars_of(sdk_path);
        let pieces = split_chars(&cv, ';');
        let ghost es = split_on(current@, ';');
        let mut i: usize = 0;
        while i < pieces.len()
            invariant
                es == split_on(current@, ';'),
                pieces@.len() == es.len(),
                forall|k: int| 0 <= k < pieces@.len() ==> (#[trigger] pieces@[k])@ == es[k],
                pv@ == sdk_path@,
                i <= pieces@.len(),
                forall|k: int| 0 <= k < i ==> !eq_ignore_ascii_case(#[trigger] es[k], sdk_path@),
            decreases pieces.len() - i,
        {
            if eq_ignore_case_chars(&pieces[i], &pv) {
                assert(eq_ignore_ascii_case(es[i as int], sdk_path@));
                return None;
            }
            i = i + 1;
        }
        let mut s = String::from_str(sdk_path);
        append_str(&mut s, ";");
        append_str(&mut s, current);
        proof {
            reveal_strlit(";");
        }
        Some(s)
    }

    /// The PATH value without the entries equal to `target` (ignoring ASCII case).
    pub fn path_without_entry(current: &str, target: &str) -> (r: String)
        ensures
            r@ == join_semicolon(entries_without(split_on(current@, ';'), target@)),
    {
        let cv = chars_of(current);
        let tv = chars_of(target);
        let pieces = split_chars(&cv, ';');
        let ghost es = split_on(current@, ';');
        let mut kept: Vec<Vec<char>> = Vec::new();
        let mut i: usize = 0;
        while i < pieces.len()
            invariant
                pieces@.len() == es.len(),
                forall|k: int| 0 <= k < pieces@.len() ==> (#[trigger] pieces@[k])@ == es[k],
                tv@ == target@,
                i <= pieces@.len(),
                kept@.len() == entries_without(es.take(i as int), target@).len(),
                forall|k: int| 0 <= k < kept@.len() ==> (#[trigger] kept@[k])@ == entries_without(es.take(i as int), target@)[k],
            decreases pieces.len() - i,
        {
            assert(es.take(i + 1).drop_last() =~= es.take(i as int));
            assert(es.take(i + 1).last() == es[i as int]);
            if !eq_ignore_case_chars(&pieces[i], &tv) {
                kept.push(pieces[i].clone());
            }
            i = i + 1;
        }
        assert(es.take(es.len() as int) =~= es);
        let ghost ks = entries_without(es, target@);
        let mut s = String::new();
        let mut j: usize = 0;
        while j < kept.len()
            invariant
                kept@.len() == ks.len(),
                forall|k: int| 0 <= k < kept@.len() ==> (#[trigger] kept@[k])@ == ks[k],
                j <= kept@.len(),
                s@ == join_semicolon(ks.take(j as int)),
            decreases kept.len() - j,
        {
            let ghost prev = s@;
            if j > 0 {
                append_str(&mut s, ";");
            }
            let piece = string_of(&kept[j]);
            append_str(&mut s, piece.as_str());
            proof {
                reveal_strlit(";");
                assert(ks.take(j + 1).drop_last() =~= ks.take(j as int));
                if j == 0 {
                    assert(ks.take(1) =~= seq![ks[0]]);
                    assert(prev =~= Seq::<char>::empty());
                    assert(s@ =~= ks[0]);
                } else {
                    assert(s@ =~= prev + seq![';'] + ks[j as int]);
                }
            }
            j = j + 1;
        }
        assert(ks.take(ks.len() as int) =~= ks);
        s
    }
}

} // verus!
