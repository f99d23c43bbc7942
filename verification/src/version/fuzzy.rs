//! Fuzzy matching of version strings (shared by install, switch and list).

use vstd::prelude::*;
use vstd::string::*;
use crate::text::{append_str, chars_eq, chars_of, is_digit, starts_with, starts_with_exec, parse_u32, parse_u32_spec, split_chars, split_on, sub_chars, trim, trim_range};

verus! {

// ───────────────────────── specification ─────────────────────────

/// The version text with surrounding white space removed and a leading
/// `v`/`V` dropped when a digit follows it (`"v14.16.0"` → `"14.16.0"`).
pub open spec fn strip_v_spec(s: Seq<char>) -> Seq<char> {
    let t = trim(s);
    if t.len() >= 2 && (t[0] == 'v' || t[0] == 'V') && is_digit(t[1]) {
        t.drop_first()
    } else {
        t
    }
}

/// The pieces that parse as `u32`, in order (non-numeric pieces skipped).
pub open spec fn parsed_pieces(p: Seq<Seq<char>>) -> Seq<u32>
    decreases p.len(),
{
    if p.len() == 0 {
        Seq::<u32>::empty()
    } else {
        let rest = parsed_pieces(p.drop_last());
        match parse_u32_spec(p.last()) {
            Some(n) => rest.push(n),
            None => rest,
        }
    }
}

/// Numeric components of a version string (`"v3.12.10"` → `[3, 12, 10]`).
pub open spec fn components(s: Seq<char>) -> Seq<u32> {
    parsed_pieces(split_on(strip_v_spec(s), '.'))
}

/// Lexicographic order of component lists (`Vec<u32>` ordering): −1, 0 or 1.
pub open spec fn lex_order(a: Seq<u32>, b: Seq<u32>) -> int
    decreases a.len(),
{
    if a.len() == 0 {
        if b.len() == 0 {
            0
        } else {
            -1
        }
    } else if b.len() == 0 {
        1
    } else if a[0] < b[0] {
        -1
    } else if a[0] > b[0] {
        1
    } else {
        lex_order(a.drop_first(), b.drop_first())
    }
}

// ───────────────────────── order lemmas ─────────────────────────

/// The order is antisymmetric and only equal lists compare equal.
pub proof fn lemma_lex_order_antisym(a: Seq<u32>, b: Seq<u32>)
    ensures
        lex_order(a, b) == -lex_order(b, a),
        -1 <= lex_order(a, b) <= 1,
        lex_order(a, b) == 0 <==> a == b,
    decreases a.len(),
{
    if a.len() > 0 && b.len() > 0 && a[0] == b[0] {
        lemma_lex_order_antisym(a.drop_first(), b.drop_first());
        if a.drop_first() == b.drop_first() {
            assert(a =~= seq![a[0]] + a.drop_first());
            assert(b =~= seq![b[0]] + b.drop_first());
        }
        if a == b {
            assert(a.drop_first() == b.drop_first());
        }
    } else if a.len() == 0 && b.len() == 0 {
        assert(a =~= b);
    } else if a.len() > 0 && b.len() > 0 {
        assert(a[0] != b[0]);
        if a == b {
            assert(a[0] == b[0]);
        }
    }
}

/// The order is transitive (in its strict and non-strict forms).
pub proof fn lemma_lex_order_trans(a: Seq<u32>, b: Seq<u32>, c: Seq<u32>)
    ensures
        lex_order(a, b) <= 0 && lex_order(b, c) <= 0 ==> lex_order(a, c) <= 0,
        lex_order(a, b) < 0 && lex_order(b, c) <= 0 ==> lex_order(a, c) < 0,
        lex_order(a, b) <= 0 && lex_order(b, c) < 0 ==> lex_order(a, c) < 0,
    decreases a.len(),
{
    lemma_lex_order_antisym(a, b);
    lemma_lex_order_antisym(b, c);
    lemma_lex_order_antisym(a, c);
    if a.len() > 0 && b.len() > 0 && c.len() > 0 && a[0] == b[0] && b[0] == c[0] {
        lemma_lex_order_trans(a.drop_first(), b.drop_first(), c.drop_first());
    }
}

// ───────────────────────── executable parts ─────────────────────────

/// The character range of `strip_v_spec(v)` inside `v`.
fn strip_v_range(v: &Vec<char>) -> (r: (usize, usize))
    ensures
        r.0 <= r.1 <= v@.len(),
        v@.subrange(r.0 as int, r.1 as int) == strip_v_spec(v@),
{
    let (a, b) = trim_range(v);
    let ghost t = trim(v@);
    if b - a >= 2 && (v[a] == 'v' || v[a] == 'V') && '0' <= v[a + 1] && v[a + 1] <= '9' {
        assert(t[0] == v@[a as int] && t[1] == v@[a + 1]);
        assert(v@.subrange(a + 1, b as int) =~= t.drop_first());
        (a + 1, b)
    } else {
        proof {
            if t.len() >= 2 {
                assert(t[0] == v@[a as int] && t[1] == v@[a + 1]);
            }
        }
        (a, b)
    }
}

/// Removes a leading `v`/`V` that is followed by a digit, after trimming
/// white space (`"v14.16.0"` → `"14.16.0"`, `"version"` unchanged).
pub fn strip_v_prefix<'a>(s: &'a str) -> (r: &'a str)
    ensures
        r@ == strip_v_spec(s@),
{
    let v = chars_of(s);
    let (a, b) = strip_v_range(&v);
    s.substring_char(a, b)
}

/// `strip_v_spec` of a string, as characters.
fn strip_v_chars(s: &str) -> (r: Vec<char>)
    ensures
        r@ == strip_v_spec(s@),
{
    let v = chars_of(s);
    let (a, b) = strip_v_range(&v);
    sub_chars(&v, a, b)
}

/// Numeric components of a text split at `.`, with no normalisation
/// (`"1.4.2"` → `[1, 4, 2]`; non-numeric pieces skipped).
pub open spec fn dot_components(s: Seq<char>) -> Seq<u32> {
    parsed_pieces(split_on(s, '.'))
}

/// `dot_components` of a character sequence.
fn dot_components_chars(v: &Vec<char>) -> (r: Vec<u32>)
    ensures
        r@ == dot_components(v@),
{
    let pieces = split_chars(v, '.');
    let ghost sp = split_on(v@, '.');
    let mut out: Vec<u32> = Vec::new();
    let mut i: usize = 0;
    while i < pieces.len()
        invariant
            i <= pieces@.len(),
            pieces@.len() == sp.len(),
            forall|k: int| 0 <= k < pieces@.len() ==> (#[trigger] pieces@[k])@ == sp[k],
            out@ == parsed_pieces(sp.take(i as int)),
        decreases pieces.len() - i,
    {
        assert(sp.take(i + 1).drop_last() =~= sp.take(i as int));
        assert(sp.take(i + 1).last() == pieces@[i as int]@);
        match parse_u32(&pieces[i]) {
            Some(n) => out.push(n),
            None => {},
        }
        i = i + 1;
    }
    assert(sp.take(sp.len() as int) =~= sp);
    out
}

/// `dot_components` of a string.
pub fn dot_components_of(s: &str) -> (r: Vec<u32>)
    ensures
        r@ == dot_components(s@),
{
    let v = chars_of(s);
    dot_components_chars(&v)
}

/// Numeric components of a version string: the `.`-separated pieces of
/// `strip_v_prefix(v)` that parse as `u32` (`"3.12.10"` → `[3, 12, 10]`).
pub fn parse_version_components(v: &str) -> (r: Vec<u32>)
    ensures
        r@ == components(v@),
{
    let stripped = strip_v_chars(v);
    dot_components_chars(&stripped)
}

/// `lex_order` of two component lists.
pub fn lex_order_exec(a: &Vec<u32>, b: &Vec<u32>) -> (r: i8)
    ensures
        r as int == lex_order(a@, b@),
{
    let mut k: usize = 0;
    assert(a@.skip(0) =~= a@ && b@.skip(0) =~= b@);
    while k < a.len() && k < b.len() && a[k] == b[k]
        invariant
            k <= a@.len(),
            k <= b@.len(),
            lex_order(a@, b@) == lex_order(a@.skip(k as int), b@.skip(k as int)),
        decreases a.len() - k,
    {
        assert(a@.skip(k as int).drop_first() =~= a@.skip(k + 1));
        assert(b@.skip(k as int).drop_first() =~= b@.skip(k + 1));
        k = k + 1;
    }
    let ghost sa = a@.skip(k as int);
    let ghost sb = b@.skip(k as int);
    if k == a.len() {
        if k == b.len() { 0 } else { -1 }
    } else if k == b.len() {
        1
    } else if a[k] < b[k] {
        assert(sa[0] == a@[k as int] && sb[0] == b@[k as int]);
        -1
    } else {
        assert(sa[0] == a@[k as int] && sb[0] == b@[k as int]);
        1
    }
}

/// Orders two version strings newest first (by numeric components):
/// `Less` when `a` is newer than `b`.
pub fn compare_versions_desc(a: &str, b: &str) -> (r: core::cmp::Ordering)
    ensures
        (r == core::cmp::Ordering::Less) == (lex_order(components(b@), components(a@)) < 0),
        (r == core::cmp::Ordering::Equal) == (lex_order(components(b@), components(a@)) == 0),
        (r == core::cmp::Ordering::Greater) == (lex_order(components(b@), components(a@)) > 0),
{
    let va = parse_version_components(a);
    let vb = parse_version_components(b);
    let o = lex_order_exec(&vb, &va);
    if o < 0 {
        core::cmp::Ordering::Less
    } else if o == 0 {
        core::cmp::Ordering::Equal
    } else {
        core::cmp::Ordering::Greater
    }
}

// ───────────────────────── newest matching version ─────────────────────────

/// The component lists of a sequence of version texts.
pub open spec fn comps_of(vs: Seq<Seq<char>>) -> Seq<Seq<u32>> {
    vs.map_values(|s: Seq<char>| components(s))
}

/// The texts of a sequence of strings.
pub open spec fn texts_of(vs: Seq<String>) -> Seq<Seq<char>> {
    vs.map_values(|s: String| s@)
}

/// Which versions equal the normalized input exactly.
pub open spec fn exact_flags(vs: Seq<Seq<char>>, norm: Seq<char>) -> Seq<bool> {
    vs.map_values(|s: Seq<char>| strip_v_spec(s) == norm)
}

/// Which versions have the normalized input followed by `.` as a prefix
/// (`"3.1"` matches `"3.1.x"` but not `"3.10.x"`).
pub open spec fn prefix_flags(vs: Seq<Seq<char>>, norm: Seq<char>) -> Seq<bool> {
    vs.map_values(|s: Seq<char>| starts_with(strip_v_spec(s), norm.push('.')))
}

/// Some flag is set.
pub open spec fn any_flag(fl: Seq<bool>) -> bool {
    exists|j: int| 0 <= j < fl.len() && fl[j]
}

/// Position `i` holds the newest flagged version: no flagged version has
/// greater components, and every earlier flagged version has smaller ones.
/// This is the first flagged version after a stable sort by components,
/// newest first.
pub open spec fn is_newest(cs: Seq<Seq<u32>>, fl: Seq<bool>, i: int) -> bool {
    &&& 0 <= i < cs.len()
    &&& i < fl.len()
    &&& fl[i]
    &&& forall|j: int| 0 <= j < cs.len() && j < fl.len() && fl[j] ==> lex_order(#[trigger] cs[j], cs[i]) <= 0
    &&& forall|j: int| 0 <= j < i && fl[j] ==> lex_order(#[trigger] cs[j], cs[i]) < 0
}

/// At most one position is the newest flagged version.
pub proof fn lemma_newest_unique(cs: Seq<Seq<u32>>, fl: Seq<bool>, i: int, j: int)
    requires
        is_newest(cs, fl, i),
        is_newest(cs, fl, j),
    ensures
        i == j,
{
    if i < j {
        assert(lex_order(cs[i], cs[j]) < 0);
        assert(lex_order(cs[j], cs[i]) <= 0);
        lemma_lex_order_antisym(cs[i], cs[j]);
    } else if j < i {
        assert(lex_order(cs[j], cs[i]) < 0);
        assert(lex_order(cs[i], cs[j]) <= 0);
        lemma_lex_order_antisym(cs[i], cs[j]);
    }
}

/// The views of a vector of component vectors.
pub open spec fn comp_vec_views(cs: Seq<Vec<u32>>) -> Seq<Seq<u32>> {
    cs.map_values(|v: Vec<u32>| v@)
}

/// The position of the newest flagged entry, if any entry is flagged.
fn newest_index(cs: &Vec<Vec<u32>>, fl: &Vec<bool>) -> (r: Option<usize>)
    requires
        cs@.len() == fl@.len(),
    ensures
        r is None <==> !any_flag(fl@),
        r matches Some(i) ==> is_newest(comp_vec_views(cs@), fl@, i as int),
{
    let ghost cv = comp_vec_views(cs@);
    let mut best: Option<usize> = None;
    let mut i: usize = 0;
    while i < cs.len()
        invariant
            cs@.len() == fl@.len(),
            cv == comp_vec_views(cs@),
            i <= cs@.len(),
            best is None ==> forall|j: int| 0 <= j < i ==> !fl@[j],
            best matches Some(b) ==> {
                &&& b < i
                &&& fl@[b as int]
                &&& forall|j: int| 0 <= j < i && fl@[j] ==> lex_order(#[trigger] cv[j], cv[b as int]) <= 0
                &&& forall|j: int| 0 <= j < b && fl@[j] ==> lex_order(#[trigger] cv[j], cv[b as int]) < 0
            },
        decreases cs.len() - i,
    {
        proof {
            lemma_lex_order_antisym(cv[i as int], cv[i as int]);
        }
        if fl[i] {
            match best {
                None => {
                    best = Some(i);
                },
                Some(b) => {
                    let o = lex_order_exec(&cs[i], &cs[b]);
                    if o > 0 {
                        proof {
                            lemma_lex_order_antisym(cv[i as int], cv[b as int]);
                            assert forall|j: int| 0 <= j < i && fl@[j] implies lex_order(#[trigger] cv[j], cv[i as int]) < 0 by {
                                lemma_lex_order_trans(cv[j], cv[b as int], cv[i as int]);
                            }
                            lemma_lex_order_antisym(cv[i as int], cv[i as int]);
                        }
                        best = Some(i);
                    }
                },
            }
        }
        i = i + 1;
    }
    match best {
        None => {
            assert(!any_flag(fl@));
        },
        Some(b) => {
            assert forall|j: int| 0 <= j < cv.len() && j < fl@.len() && fl@[j] implies lex_order(#[trigger] cv[j], cv[b as int]) <= 0 by {}
        },
    }
    best
}

// ───────────────────────── suggestion ─────────────────────────

/// Length of the longest common prefix of two component lists.
pub open spec fn common_prefix_len(a: Seq<u32>, b: Seq<u32>) -> nat
    decreases a.len(),
{
    if a.len() == 0 || b.len() == 0 || a[0] != b[0] {
        0
    } else {
        1 + common_prefix_len(a.drop_first(), b.drop_first())
    }
}

/// `100^k`.
pub open spec fn pow100(k: nat) -> nat
    decreases k,
{
    if k == 0 {
        1
    } else {
        100 * pow100((k - 1) as nat)
    }
}

/// `100u64.saturating_pow(k)`.
pub open spec fn weight(k: nat) -> nat {
    if pow100(k) > u64::MAX {
        u64::MAX as nat
    } else {
        pow100(k)
    }
}

/// Component `i` of a list, `0` past its end.
pub open spec fn comp_at(a: Seq<u32>, i: int) -> int {
    if 0 <= i < a.len() {
        a[i] as int
    } else {
        0
    }
}

/// Absolute difference.
pub open spec fn abs_diff(x: int, y: int) -> nat {
    if x >= y {
        (x - y) as nat
    } else {
        (y - x) as nat
    }
}

/// Distance contribution of component `i` out of `n`: the difference of the
/// components weighted by `100^(n - i - 1)` (exponent taken as a `u32`).
pub open spec fn dist_term(a: Seq<u32>, b: Seq<u32>, n: nat, i: nat) -> nat {
    abs_diff(comp_at(a, i as int), comp_at(b, i as int)) * weight((((n - i - 1) as nat) % 0x1_0000_0000) as nat)
}

/// Sum of the first `i` distance contributions.
pub open spec fn dist_upto(a: Seq<u32>, b: Seq<u32>, n: nat, i: nat) -> nat
    decreases i,
{
    if i == 0 {
        0
    } else {
        dist_upto(a, b, n, (i - 1) as nat) + dist_term(a, b, n, (i - 1) as nat)
    }
}

/// Longer of the two lengths.
pub open spec fn max_len(a: Seq<u32>, b: Seq<u32>) -> nat {
    if a.len() >= b.len() {
        a.len()
    } else {
        b.len()
    }
}

/// Numeric distance of two versions; the first differing (highest) component dominates.
pub open spec fn version_distance_spec(a: Seq<u32>, b: Seq<u32>) -> nat {
    dist_upto(a, b, max_len(a, b), max_len(a, b))
}

/// The distance computation stays within `u64` (no arithmetic overflow).
pub open spec fn distance_fits(a: Seq<u32>, b: Seq<u32>) -> bool {
    version_distance_spec(a, b) <= u64::MAX
}

/// Every candidate's distance to the input stays within `u64`.
pub open spec fn suggestion_defined(vs: Seq<Seq<char>>, input: Seq<char>) -> bool {
    forall|i: int| 0 <= i < vs.len() ==> distance_fits(components(input), components(#[trigger] vs[i]))
}

/// Key `(common, dist)` ranks before `(common2, dist2)`: longer common prefix,
/// then smaller distance.
pub open spec fn closer(common: nat, dist: nat, common2: nat, dist2: nat) -> bool {
    common > common2 || (common == common2 && dist < dist2)
}

/// Common numeric prefix length of candidate `j` with the input.
pub open spec fn common_of(input: Seq<char>, vs: Seq<Seq<char>>, j: int) -> nat {
    common_prefix_len(components(input), components(vs[j]))
}

/// Numeric distance of candidate `j` to the input.
pub open spec fn dist_of(input: Seq<char>, vs: Seq<Seq<char>>, j: int) -> nat {
    version_distance_spec(components(input), components(vs[j]))
}

/// Candidate `i` is the closest to the input: none ranks before it and every
/// earlier candidate ranks after it (ties go to the earliest candidate).
pub open spec fn is_closest(input: Seq<char>, vs: Seq<Seq<char>>, i: int) -> bool {
    &&& 0 <= i < vs.len()
    &&& forall|j: int| 0 <= j < vs.len() ==> !closer(#[trigger] common_of(input, vs, j), dist_of(input, vs, j), common_of(input, vs, i), dist_of(input, vs, i))
    &&& forall|j: int| 0 <= j < i ==> closer(common_of(input, vs, i), dist_of(input, vs, i), #[trigger] common_of(input, vs, j), dist_of(input, vs, j))
}

proof fn lemma_dist_upto_mono(a: Seq<u32>, b: Seq<u32>, n: nat, i: nat, j: nat)
    requires
        i <= j,
    ensures
        dist_upto(a, b, n, i) <= dist_upto(a, b, n, j),
        i < j ==> dist_upto(a, b, n, i) + dist_term(a, b, n, i) <= dist_upto(a, b, n, j),
    decreases j - i,
{
    if i < j {
        lemma_dist_upto_mono(a, b, n, i, (j - 1) as nat);
    }
}

/// `100u64.saturating_pow(e)`.
fn pow100_saturating(e: u32) -> (r: u64)
    ensures
        r == weight(e as nat),
{
    let mut r: u64 = 1;
    let mut k: u32 = 0;
    while k < e
        invariant
            k <= e,
            r == weight(k as nat),
        decreases e - k,
    {
        proof {
            assert(pow100((k + 1) as nat) == 100 * pow100(k as nat));
        }
        if r > u64::MAX / 100 {
            proof {
                if pow100(k as nat) <= u64::MAX {
                    assert(100 * pow100(k as nat) > u64::MAX) by (nonlinear_arith)
                        requires pow100(k as nat) > u64::MAX / 100;
                }
            }
            r = u64::MAX;
        } else {
            r = r * 100;
        }
        k = k + 1;
    }
    r
}

/// Numeric distance of two component lists; higher components weigh more,
/// so the first differing component dominates.
pub fn version_distance(a: &[u32], b: &[u32]) -> (d: u64)
    requires
        distance_fits(a@, b@),
    ensures
        d == version_distance_spec(a@, b@),
{
    let n = if a.len() >= b.len() { a.len() } else { b.len() };
    let ghost nn = max_len(a@, b@);
    let mut d: u64 = 0;
    let mut i: usize = 0;
    while i < n
        invariant
            n == nn,
            nn == max_len(a@, b@),
            i <= n,
            d == dist_upto(a@, b@, nn, i as nat),
            dist_upto(a@, b@, nn, nn) <= u64::MAX,
        decreases n - i,
    {
        let av: u64 = if i < a.len() { a[i] as u64 } else { 0 };
        let bv: u64 = if i < b.len() { b[i] as u64 } else { 0 };
        let e: u32 = ((((n - i - 1) as u64) % 0x1_0000_0000u64)) as u32;
        let w = pow100_saturating(e);
        let diff: u64 = if av >= bv { av - bv } else { bv - av };
        proof {
            lemma_dist_upto_mono(a@, b@, nn, i as nat, nn);
            assert(diff == abs_diff(comp_at(a@, i as int), comp_at(b@, i as int)));
            assert(dist_term(a@, b@, nn, i as nat) == diff * w);
        }
        d = d + diff * w;
        i = i + 1;
    }
    d
}

/// The distance of two component lists when it fits in `u64`; `None` when
/// computing it would overflow.
pub fn checked_version_distance(a: &[u32], b: &[u32]) -> (r: Option<u64>)
    ensures
        r is Some <==> distance_fits(a@, b@),
        r matches Some(d) ==> d == version_distance_spec(a@, b@),
{
    let n = if a.len() >= b.len() { a.len() } else { b.len() };
    let ghost nn = max_len(a@, b@);
    let mut d: u64 = 0;
    let mut i: usize = 0;
    while i < n
        invariant
            n == nn,
            nn == max_len(a@, b@),
            i <= n,
            d == dist_upto(a@, b@, nn, i as nat),
        decreases n - i,
    {
        let av: u64 = if i < a.len() { a[i] as u64 } else { 0 };
        let bv: u64 = if i < b.len() { b[i] as u64 } else { 0 };
        let e: u32 = ((((n - i - 1) as u64) % 0x1_0000_0000u64)) as u32;
        let w = pow100_saturating(e);
        let diff: u64 = if av >= bv { av - bv } else { bv - av };
        proof {
            assert(diff == abs_diff(comp_at(a@, i as int), comp_at(b@, i as int)));
            assert(dist_term(a@, b@, nn, i as nat) == diff * w);
        }
        match diff.checked_mul(w) {
            None => {
                proof {
                    lemma_dist_upto_mono(a@, b@, nn, i as nat, nn);
                }
                return None;
            },
            Some(t) => match d.checked_add(t) {
                None => {
                    proof {
                        lemma_dist_upto_mono(a@, b@, nn, i as nat, nn);
                    }
                    return None;
                },
                Some(s) => {
                    d = s;
                },
            },
        }
        i = i + 1;
    }
    Some(d)
}

/// Whether every candidate's distance to the input fits in `u64`, so that
/// a "did you mean" suggestion can be computed.
pub fn suggestion_fits(versions: &[String], input: &str) -> (r: bool)
    ensures
        r == suggestion_defined(texts_of(versions@), input@),
{
    let ghost vs = texts_of(versions@);
    let ci = parse_version_components(input);
    let mut i: usize = 0;
    while i < versions.len()
        invariant
            i <= versions@.len(),
            vs == texts_of(versions@),
            ci@ == components(input@),
            forall|j: int| 0 <= j < i ==> distance_fits(components(input@), components(#[trigger] vs[j])),
        decreases versions.len() - i,
    {
        let cv = parse_version_components(versions[i].as_str());
        if checked_version_distance(ci.as_slice(), cv.as_slice()).is_none() {
            assert(vs[i as int] == versions@[i as int]@);
            return false;
        }
        assert(vs[i as int] == versions@[i as int]@);
        i = i + 1;
    }
    true
}

/// Whether a request can be matched or answered with a suggestion: some
/// version matches it exactly or by prefix, or every distance to it fits in
/// `u64` (what `fuzzy_match_version_core` needs).
pub fn match_ready(versions: &[String], version_input: &str) -> (r: bool)
    ensures
        r == ({
            let vs = texts_of(versions@);
            let norm = strip_v_spec(version_input@);
            any_flag(exact_flags(vs, norm)) || any_flag(prefix_flags(vs, norm)) || suggestion_defined(vs, version_input@)
        }),
{
    let ghost vs = texts_of(versions@);
    let ghost norm = strip_v_spec(version_input@);
    let norm_v = strip_v_chars(version_input);
    let mut dotted = norm_v.clone();
    dotted.push('.');
    let mut i: usize = 0;
    while i < versions.len()
        invariant
            vs == texts_of(versions@),
            norm == strip_v_spec(version_input@),
            norm_v@ == norm,
            dotted@ == norm.push('.'),
            i <= versions@.len(),
            forall|j: int| 0 <= j < i ==> !exact_flags(vs, norm)[j],
            forall|j: int| 0 <= j < i ==> !prefix_flags(vs, norm)[j],
        decreases versions.len() - i,
    {
        assert(vs[i as int] == versions@[i as int]@);
        let st = strip_v_chars(versions[i].as_str());
        assert(exact_flags(vs, norm)[i as int] == (strip_v_spec(vs[i as int]) == norm));
        assert(prefix_flags(vs, norm)[i as int] == starts_with(strip_v_spec(vs[i as int]), norm.push('.')));
        if chars_eq(&st, &norm_v) || starts_with_exec(&st, &dotted) {
            proof {
                if exact_flags(vs, norm)[i as int] {
                    assert(any_flag(exact_flags(vs, norm)));
                } else {
                    assert(any_flag(prefix_flags(vs, norm)));
                }
            }
            return true;
        }
        i = i + 1;
    }
    proof {
        assert(!any_flag(exact_flags(vs, norm)));
        assert(!any_flag(prefix_flags(vs, norm)));
    }
    suggestion_fits(versions, version_input)
}

/// Length of the common leading run of equal components.
fn common_prefix_exec(a: &Vec<u32>, b: &Vec<u32>) -> (r: usize)
    ensures
        r == common_prefix_len(a@, b@),
{
    let mut k: usize = 0;
    assert(a@.skip(0) =~= a@ && b@.skip(0) =~= b@);
    while k < a.len() && k < b.len() && a[k] == b[k]
        invariant
            k <= a@.len(),
            k <= b@.len(),
            common_prefix_len(a@, b@) == k + common_prefix_len(a@.skip(k as int), b@.skip(k as int)),
        decreases a.len() - k,
    {
        assert(a@.skip(k as int).drop_first() =~= a@.skip(k + 1));
        assert(b@.skip(k as int).drop_first() =~= b@.skip(k + 1));
        k = k + 1;
    }
    proof {
        let sa = a@.skip(k as int);
        let sb = b@.skip(k as int);
        if sa.len() > 0 && sb.len() > 0 {
            assert(sa[0] == a@[k as int] && sb[0] == b@[k as int]);
        }
    }
    k
}

/// Picks, among the available versions, the one closest to `input`: longest
/// common numeric prefix first, then smallest numeric distance (earliest on ties).
pub fn suggest_similar_version(versions: &[String], input: &str) -> (r: Option<String>)
    requires
        suggestion_defined(texts_of(versions@), input@),
    ensures
        versions@.len() == 0 <==> r is None,
        r matches Some(s) ==> exists|i: int| is_closest(input@, texts_of(versions@), i) && s@ == #[trigger] texts_of(versions@)[i],
{
    if versions.len() == 0 {
        return None;
    }
    let ghost vs = texts_of(versions@);
    let input_parts = parse_version_components(input);
    let mut best: usize = 0;
    let mut best_common: usize = 0;
    let mut best_dist: u64 = 0;
    let mut i: usize = 0;
    while i < versions.len()
        invariant
            vs == texts_of(versions@),
            suggestion_defined(vs, input@),
            input_parts@ == components(input@),
            i <= versions@.len(),
            versions@.len() > 0,
            i > 0 ==> best < i,
            i > 0 ==> best_common == common_of(input@, vs, best as int),
            i > 0 ==> best_dist == dist_of(input@, vs, best as int),
            forall|j: int| 0 <= j < i ==> !closer(#[trigger] common_of(input@, vs, j), dist_of(input@, vs, j), best_common as nat, best_dist as nat),
            forall|j: int| 0 <= j < best ==> closer(best_common as nat, best_dist as nat, #[trigger] common_of(input@, vs, j), dist_of(input@, vs, j)),
        decreases versions.len() - i,
    {
        let parts = parse_version_components(versions[i].as_str());
        assert(vs[i as int] == versions@[i as int]@);
        let common = common_prefix_exec(&input_parts, &parts);
        assert(distance_fits(components(input@), components(vs[i as int])));
        let dist = version_distance(input_parts.as_slice(), parts.as_slice());
        if i == 0 || common > best_common || (common == best_common && dist < best_dist) {
            best = i;
            best_common = common;
            best_dist = dist;
        }
        i = i + 1;
    }
    let s = versions[best].clone();
    assert(is_closest(input@, vs, best as int));
    Some(s)
}

// ───────────────────────── matching ─────────────────────────

/// A version resolved from user input.
pub struct FuzzyMatch {
    /// The matched version, as listed (a `v` prefix kept).
    pub full_version: String,
    /// Whether it was found by prefix rather than exactly (needs confirmation).
    pub fuzzy_matched: bool,
}

/// No available version matches the input.
pub struct NoMatchError {
    /// The version the user asked for.
    pub input: String,
    /// The closest available version, when there is any.
    pub suggestion: Option<String>,
}

/// The text of a "not found" message.
pub open spec fn no_match_text(input: Seq<char>, suggestion: Option<Seq<char>>) -> Seq<char> {
    match suggestion {
        Some(s) => "version '"@ + input + "' not found in available versions, did you mean '"@ + s + "'?"@,
        None => "version '"@ + input + "' not found in available versions"@,
    }
}

impl NoMatchError {
    /// The error message, with a "did you mean" hint when a suggestion exists.
    pub fn message(&self) -> (m: String)
        ensures
            m@ == no_match_text(self.input@, match self.suggestion { Some(s) => Some(s@), None => None }),
    {
        let mut m = String::new();
        append_str(&mut m, "version '");
        append_str(&mut m, self.input.as_str());
        match &self.suggestion {
            Some(s) => {
                append_str(&mut m, "' not found in available versions, did you mean '");
                append_str(&mut m, s.as_str());
                append_str(&mut m, "'?");
            },
            None => {
                append_str(&mut m, "' not found in available versions");
            },
        }
        m
    }
}

/// Builds the "not found" error, with the closest available version as a hint.
fn no_match_error(versions: &[String], input: &str) -> (e: NoMatchError)
    requires
        suggestion_defined(texts_of(versions@), input@),
    ensures
        e.input@ == input@,
        versions@.len() == 0 <==> e.suggestion is None,
        e.suggestion matches Some(s) ==> exists|i: int| is_closest(input@, texts_of(versions@), i) && s@ == #[trigger] texts_of(versions@)[i],
{
    NoMatchError { input: String::from_str(input), suggestion: suggest_similar_version(versions, input) }
}

/// Resolves user input against the available versions: an exact match
/// (ignoring a `v` prefix) wins; otherwise the input followed by `.` is
/// taken as a prefix and the newest such version is chosen (flagged as fuzzy);
/// otherwise the error carries the closest version as a suggestion.
/// Among several exact or prefix matches the newest by numeric components
/// is chosen, the earliest listed one on ties.
pub fn fuzzy_match_version_core(versions: &[String], version_input: &str) -> (r: Result<FuzzyMatch, NoMatchError>)
    requires
        ({
            let vs = texts_of(versions@);
            let norm = strip_v_spec(version_input@);
            any_flag(exact_flags(vs, norm)) || any_flag(prefix_flags(vs, norm)) || suggestion_defined(vs, version_input@)
        }),
    ensures
        ({
            let vs = texts_of(versions@);
            let norm = strip_v_spec(version_input@);
            let ex = exact_flags(vs, norm);
            let pf = prefix_flags(vs, norm);
            &&& (r is Ok <==> any_flag(ex) || any_flag(pf))
            &&& (r matches Ok(m) ==> {
                &&& m.fuzzy_matched == !any_flag(ex)
                &&& exists|i: int| is_newest(comps_of(vs), if any_flag(ex) { ex } else { pf }, i) && m.full_version@ == #[trigger] vs[i]
            })
            &&& (r matches Err(e) ==> {
                &&& e.input@ == version_input@
                &&& (versions@.len() == 0 <==> e.suggestion is None)
                &&& (e.suggestion matches Some(s) ==> exists|i: int| is_closest(version_input@, vs, i) && s@ == #[trigger] vs[i])
            })
        }),
{
    let ghost vs = texts_of(versions@);
    let ghost norm = strip_v_spec(version_input@);
    if versions.len() == 0 {
        return Err(no_match_error(versions, version_input));
    }
    let norm_v = strip_v_chars(version_input);
    let mut dotted = norm_v.clone();
    dotted.push('.');
    let mut cs: Vec<Vec<u32>> = Vec::new();
    let mut ex: Vec<bool> = Vec::new();
    let mut pf: Vec<bool> = Vec::new();
    let mut i: usize = 0;
    while i < versions.len()
        invariant
            vs == texts_of(versions@),
            norm_v@ == norm,
            dotted@ == norm.push('.'),
            i <= versions@.len(),
            cs@.len() == i && ex@.len() == i && pf@.len() == i,
            forall|j: int| 0 <= j < i ==> (#[trigger] cs@[j])@ == components(vs[j]),
            forall|j: int| 0 <= j < i ==> #[trigger] ex@[j] == (strip_v_spec(vs[j]) == norm),
            forall|j: int| 0 <= j < i ==> #[trigger] pf@[j] == starts_with(strip_v_spec(vs[j]), norm.push('.')),
        decreases versions.len() - i,
    {
        assert(vs[i as int] == versions@[i as int]@);
        let st = strip_v_chars(versions[i].as_str());
        cs.push(parse_version_components(versions[i].as_str()));
        ex.push(chars_eq(&st, &norm_v));
        pf.push(starts_with_exec(&st, &dotted));
        i = i + 1;
    }
    let ghost exs = exact_flags(vs, norm);
    let ghost pfs = prefix_flags(vs, norm);
    assert(comp_vec_views(cs@) =~= comps_of(vs));
    assert(ex@ =~= exs);
    assert(pf@ =~= pfs);
    match newest_index(&cs, &ex) {
        Some(k) => {
            return Ok(FuzzyMatch { full_version: versions[k].clone(), fuzzy_matched: false });
        },
        None => {},
    }
    match newest_index(&cs, &pf) {
        Some(k) => {
            return Ok(FuzzyMatch { full_version: versions[k].clone(), fuzzy_matched: true });
        },
        None => {},
    }
    Err(no_match_error(versions, version_input))
}

} // verus!
