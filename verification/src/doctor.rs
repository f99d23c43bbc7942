//! Pieces of the `sdkm doctor` report that are computed rather than probed:
//! how secrets are shown, the line of each registered SDK, and whether PATH
//! holds sdkm's link entries.

use vstd::prelude::*;
use crate::config::string_texts;
use crate::text::{append_str, chars_of, starts_with, starts_with_exec};
use crate::tui::spaces;

verus! {

/// A secret setting is only reported as set or unset.
pub fn mark_set(set: bool) -> (r: &'static str)
    ensures
        r@ == if set { "set"@ } else { "unset"@ },
{
    if set { "set" } else { "unset" }
}

/// The report line of a registered SDK: its name left-aligned in ten
/// columns, whether it is installed, and its active version (`-` when none).
pub open spec fn sdk_line_text(name: Seq<char>, installed: bool, current: Option<Seq<char>>) -> Seq<char> {
    name + spaces(if name.len() < 10 { (10 - name.len()) as nat } else { 0 }) + " installed="@ + (if installed {
        "yes"@
    } else {
        "no "@
    }) + " current="@ + match current {
        Some(c) => c,
        None => "-"@,
    }
}

/// The report line of a registered SDK.
pub fn doctor_sdk_line(name: &str, installed: bool, current: Option<&str>) -> (r: String)
    ensures
        r@ == sdk_line_text(name@, installed, crate::list::opt_str(current)),
{
    let mut r = String::from_str(name);
    let n = name.unicode_len();
    let mut i: usize = n;
    while i < 10
        invariant
            n == name@.len(),
            n <= i <= 10 || (n > 10 && i == n),
            i < 10 ==> r@ == name@ + spaces((i - n) as nat),
            i >= 10 ==> r@ == name@ + spaces(if n < 10 { (10 - n) as nat } else { 0 }),
        decreases 10 - i,
    {
        crate::text::push_char(&mut r, ' ');
        i = i + 1;
        assert(r@ =~= name@ + spaces((i - n) as nat));
    }
    if n >= 10 {
        assert(r@ =~= name@ + spaces(0));
    }
    append_str(&mut r, " installed=");
    append_str(&mut r, if installed { "yes" } else { "no " });
    append_str(&mut r, " current=");
    match current {
        Some(c) => append_str(&mut r, c),
        None => append_str(&mut r, "-"),
    }
    r
}

/// Whether some PATH entry lies under sdkm's link directory (`links_prefix`
/// is that directory followed by the path separator).
pub fn links_in_path(entries: &Vec<String>, links_prefix: &str) -> (r: bool)
    ensures
        r == exists|i: int| 0 <= i < entries@.len() && starts_with(#[trigger] string_texts(entries@)[i], links_prefix@),
{
    let ghost es = string_texts(entries@);
    let p = chars_of(links_prefix);
    let mut i: usize = 0;
    while i < entries.len()
        invariant
            i <= entries@.len(),
            es == string_texts(entries@),
            p@ == links_prefix@,
            forall|j: int| 0 <= j < i ==> !starts_with(#[trigger] es[j], links_prefix@),
        decreases entries.len() - i,
    {
        let e = chars_of(entries[i].as_str());
        if starts_with_exec(&e, &p) {
            assert(starts_with(es[i as int], links_prefix@));
            return true;
        }
        i = i + 1;
    }
    false
}

} // verus!
