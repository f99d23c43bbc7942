//! Choice of the release asset that fits a target among the assets of one
//! GitHub release (pure: no I/O, no state).
//!
//! An asset qualifies when its name, lower-cased and with `x86_64` written
//! `x64`, ends in an archive suffix (`.zip`, `.tar.gz`, `.tgz`), starts with
//! `{prefix}-` or `{prefix}_`, and every remaining `-`/`_`/`.`-separated token
//! is recognised (OS, architecture, triple bridge, `universal`, libc, version
//! number or variant modifier), with the target's OS and architecture both
//! named. Among qualifying assets the highest score wins, the first listed on
//! ties: variant modifiers (`baseline`, `profile`, `debug`) cost 4 each, and a
//! libc token that does not fit the target costs 3.

use vstd::prelude::*;
use crate::platform::{HostArch, HostOs, Target, TargetArch, TargetEnv, TargetOs, host_arch_spec, host_os_spec};
use crate::text::{
    all_digits, chars_eq_str, chars_of, ends_with, ends_with_exec, is_digit, lemma_replace_all_len, lowercase_of,
    nonempty_pieces, replace_all, replace_all_exec, split_nonempty, split_where, starts_with,
    starts_with_exec, sub_chars, to_lowercase, trim_end_matches, trim_end_matches_len,
};

verus! {

/// An asset of a release: its file name and download URL.
#[derive(Debug, Clone, Copy)]
pub struct AssetCandidate<'a> {
    pub name: &'a str,
    pub download_url: &'a str,
}

// ───────────────────────── specification ─────────────────────────

/// The name ends in a supported archive suffix.
pub open spec fn has_archive_ext(s: Seq<char>) -> bool {
    ends_with(s, ".zip"@) || ends_with(s, ".tar.gz"@) || ends_with(s, ".tgz"@)
}

/// The name without its archive suffixes (`.tar.gz`, then `.tgz`, then `.zip`, each repeatedly).
pub open spec fn archive_stem(s: Seq<char>) -> Seq<char> {
    trim_end_matches(trim_end_matches(trim_end_matches(s, ".tar.gz"@), ".tgz"@), ".zip"@)
}

/// The stem after `{prefix}-` or, failing that, `{prefix}_`.
pub open spec fn strip_asset_prefix(stem: Seq<char>, prefix: Seq<char>) -> Option<Seq<char>> {
    if starts_with(stem, prefix.push('-')) || starts_with(stem, prefix.push('_')) {
        Some(stem.skip(prefix.len() + 1int))
    } else {
        None
    }
}

/// The non-empty tokens between `-`, `_` and `.`.
pub open spec fn asset_tokens(rest: Seq<char>) -> Seq<Seq<char>> {
    nonempty_pieces(split_where(rest, seq!['-', '_', '.']))
}

/// The token without its trailing ASCII digits (`"macos10"` → `"macos"`).
pub open spec fn trim_trailing_digits(t: Seq<char>) -> Seq<char>
    decreases t.len(),
{
    if t.len() > 0 && is_digit(t.last()) {
        trim_trailing_digits(t.drop_last())
    } else {
        t
    }
}

/// The OS a token names, trailing digits ignored.
pub open spec fn os_synonym(t: Seq<char>) -> Option<HostOs> {
    let w = trim_trailing_digits(t);
    if w == "windows"@ || w == "win32"@ || w == "win"@ {
        Some(HostOs::Windows)
    } else if w == "darwin"@ || w == "macos"@ || w == "mac"@ || w == "osx"@ {
        Some(HostOs::Darwin)
    } else if w == "linux"@ {
        Some(HostOs::Linux)
    } else {
        None
    }
}

/// The architecture a token names.
pub open spec fn arch_synonym(t: Seq<char>) -> Option<HostArch> {
    if t == "x64"@ || t == "x86_64"@ || t == "amd64"@ {
        Some(HostArch::X64)
    } else if t == "arm64"@ || t == "aarch64"@ {
        Some(HostArch::Arm64)
    } else if t == "x86"@ || t == "386"@ || t == "i686"@ || t == "i386"@ {
        Some(HostArch::X86)
    } else {
        None
    }
}

/// A platform-triple or double-suffix token (`pc`, `unknown`, `apple`, `msvc`, `exe`).
pub open spec fn is_bridge_token(t: Seq<char>) -> bool {
    t == "pc"@ || t == "unknown"@ || t == "apple"@ || t == "msvc"@ || t == "exe"@
}

/// A variant modifier (`baseline`, `profile`, `debug`).
pub open spec fn is_modifier_token(t: Seq<char>) -> bool {
    t == "baseline"@ || t == "profile"@ || t == "debug"@
}

/// A version number token: digits, optionally after a `v`.
pub open spec fn is_version_token(t: Seq<char>) -> bool {
    let d = version_digits(t);
    d.len() > 0 && all_digits(d)
}

/// The token without a leading `v`.
pub open spec fn version_digits(t: Seq<char>) -> Seq<char> {
    if t.len() > 0 && t[0] == 'v' { t.drop_first() } else { t }
}

/// What a token says about an asset.
#[derive(Clone, Copy, Debug, PartialEq, Eq, Structural)]
pub enum TokenClass {
    /// Unrecognised, or names another OS or architecture: the asset is rejected.
    Reject,
    /// Names the target's OS.
    Os,
    /// Names the target's architecture (or `universal`).
    Arch,
    /// Recognised and neutral (triple bridge or version number).
    Neutral,
    /// The `musl` libc token.
    Musl,
    /// The `gnu` libc token.
    Gnu,
    /// A variant modifier.
    Modifier,
}

/// The class of a token for a target; OS names are recognised first, then
/// architectures, bridges, `universal`, libc, versions and modifiers.
pub open spec fn token_class(t: Seq<char>, target: Target) -> TokenClass {
    match os_synonym(t) {
        Some(os) => if os == host_os_spec(target) { TokenClass::Os } else { TokenClass::Reject },
        None => match arch_synonym(t) {
            Some(a) => if a == host_arch_spec(target) { TokenClass::Arch } else { TokenClass::Reject },
            None => if is_bridge_token(t) {
                TokenClass::Neutral
            } else if t == "universal"@ {
                TokenClass::Arch
            } else if t == "musl"@ {
                TokenClass::Musl
            } else if t == "gnu"@ {
                TokenClass::Gnu
            } else if is_version_token(t) {
                TokenClass::Neutral
            } else if is_modifier_token(t) {
                TokenClass::Modifier
            } else {
                TokenClass::Reject
            },
        },
    }
}

/// Some token has class `c`.
pub open spec fn has_class(ts: Seq<Seq<char>>, target: Target, c: TokenClass) -> bool {
    exists|j: int| 0 <= j < ts.len() && token_class(#[trigger] ts[j], target) == c
}

/// Number of tokens of class `c`.
pub open spec fn count_class(ts: Seq<Seq<char>>, target: Target, c: TokenClass) -> nat
    decreases ts.len(),
{
    if ts.len() == 0 {
        0
    } else {
        count_class(ts.drop_last(), target, c) + if token_class(ts.last(), target) == c { 1nat } else { 0nat }
    }
}

/// Score of the tokens: 4 off per modifier, 3 off for a libc token that
/// does not fit the target.
pub open spec fn tokens_score(ts: Seq<Seq<char>>, target: Target) -> int {
    let musl = target.env == TargetEnv::Musl;
    -4 * count_class(ts, target, TokenClass::Modifier)
        - (if has_class(ts, target, TokenClass::Musl) && !musl { 3int } else { 0int })
        - (if has_class(ts, target, TokenClass::Gnu) && musl { 3int } else { 0int })
}

/// Score of an asset whose name is already lower-cased: `None` when the asset
/// does not fit the target, else its score (higher is better).
pub open spec fn asset_score(lower: Seq<char>, prefix: Seq<char>, target: Target) -> Option<int> {
    let norm = replace_all(lower, "x86_64"@, "x64"@);
    if !has_archive_ext(norm) {
        None
    } else {
        match strip_asset_prefix(archive_stem(norm), prefix) {
            None => None,
            Some(rest) => {
                let ts = asset_tokens(rest);
                if ts.len() == 0 || has_class(ts, target, TokenClass::Reject)
                    || !has_class(ts, target, TokenClass::Os) || !has_class(ts, target, TokenClass::Arch) {
                    None
                } else {
                    Some(tokens_score(ts, target))
                }
            },
        }
    }
}

/// Score of a candidate name: its lower-cased form scored.
pub open spec fn candidate_score(name: Seq<char>, prefix: Seq<char>, target: Target) -> Option<int> {
    asset_score(lowercase_of(name), prefix, target)
}

/// The scores of all candidates.
pub open spec fn candidate_scores(cs: Seq<AssetCandidate>, prefix: Seq<char>, target: Target) -> Seq<Option<int>> {
    cs.map_values(|c: AssetCandidate| candidate_score(c.name@, prefix, target))
}

/// Some candidate qualifies.
pub open spec fn any_scored(sc: Seq<Option<int>>) -> bool {
    exists|j: int| 0 <= j < sc.len() && sc[j] is Some
}

/// Position `i` holds the best score: no score is higher and every earlier
/// score is lower (the first of the best after a stable sort, best first).
pub open spec fn is_best(sc: Seq<Option<int>>, i: int) -> bool {
    &&& 0 <= i < sc.len()
    &&& sc[i] is Some
    &&& forall|j: int| 0 <= j < sc.len() && sc[j] is Some ==> sc[j]->0 <= sc[i]->0
    &&& forall|j: int| 0 <= j < i && sc[j] is Some ==> sc[j]->0 < sc[i]->0
}

/// At most one position holds the best score.
pub proof fn lemma_best_unique(sc: Seq<Option<int>>, i: int, j: int)
    requires
        is_best(sc, i),
        is_best(sc, j),
    ensures
        i == j,
{
}

// ───────────────────────── token classification ─────────────────────────

proof fn lemma_trim_digits_take(t: Seq<char>, k: int)
    requires
        0 <= k <= t.len(),
        forall|j: int| k <= j < t.len() ==> is_digit(#[trigger] t[j]),
        k == 0 || !is_digit(t[k - 1]),
    ensures
        trim_trailing_digits(t) == t.take(k),
    decreases t.len() - k,
{
    if k < t.len() {
        let u = t.drop_last();
        assert forall|j: int| k <= j < u.len() implies is_digit(#[trigger] u[j]) by {
            assert(u[j] == t[j]);
        }
        if k > 0 {
            assert(u[k - 1] == t[k - 1]);
        }
        lemma_trim_digits_take(u, k);
        assert(u.take(k) =~= t.take(k));
    } else {
        assert(t.take(k) =~= t);
    }
}

/// `os_synonym` of a token.
fn os_synonym_exec(t: &Vec<char>) -> (r: Option<HostOs>)
    ensures
        r == os_synonym(t@),
{
    let mut k: usize = t.len();
    while k > 0 && '0' <= t[k - 1] && t[k - 1] <= '9'
        invariant
            k <= t@.len(),
            forall|j: int| k <= j < t@.len() ==> is_digit(#[trigger] t@[j]),
        decreases k,
    {
        k = k - 1;
    }
    proof {
        lemma_trim_digits_take(t@, k as int);
    }
    let w = sub_chars(t, 0, k);
    if chars_eq_str(&w, "windows") || chars_eq_str(&w, "win32") || chars_eq_str(&w, "win") {
        Some(HostOs::Windows)
    } else if chars_eq_str(&w, "darwin") || chars_eq_str(&w, "macos") || chars_eq_str(&w, "mac")
        || chars_eq_str(&w, "osx") {
        Some(HostOs::Darwin)
    } else if chars_eq_str(&w, "linux") {
        Some(HostOs::Linux)
    } else {
        None
    }
}

/// `arch_synonym` of a token.
fn arch_synonym_exec(t: &Vec<char>) -> (r: Option<HostArch>)
    ensures
        r == arch_synonym(t@),
{
    if chars_eq_str(t, "x64") || chars_eq_str(t, "x86_64") || chars_eq_str(t, "amd64") {
        Some(HostArch::X64)
    } else if chars_eq_str(t, "arm64") || chars_eq_str(t, "aarch64") {
        Some(HostArch::Arm64)
    } else if chars_eq_str(t, "x86") || chars_eq_str(t, "386") || chars_eq_str(t, "i686")
        || chars_eq_str(t, "i386") {
        Some(HostArch::X86)
    } else {
        None
    }
}

/// `is_version_token` of a token.
fn is_version_token_exec(t: &Vec<char>) -> (r: bool)
    ensures
        r == is_version_token(t@),
{
    let start: usize = if t.len() > 0 && t[0] == 'v' { 1 } else { 0 };
    let ghost d = version_digits(t@);
    if start >= t.len() {
        assert(d.len() == 0);
        return false;
    }
    let mut i: usize = start;
    while i < t.len()
        invariant
            start <= i <= t@.len(),
            start < t@.len(),
            d == version_digits(t@),
            d.len() == t@.len() - start,
            forall|j: int| 0 <= j < d.len() ==> d[j] == t@[j + start],
            forall|j: int| 0 <= j < i - start ==> is_digit(#[trigger] d[j]),
        decreases t.len() - i,
    {
        if !('0' <= t[i] && t[i] <= '9') {
            assert(!is_digit(d[i - start]));
            return false;
        }
        i = i + 1;
    }
    true
}

/// `token_class` of a token.
fn classify_token(t: &Vec<char>, target: Target) -> (c: TokenClass)
    ensures
        c == token_class(t@, target),
{
    match os_synonym_exec(t) {
        Some(os) => {
            if os == target.host_os() { TokenClass::Os } else { TokenClass::Reject }
        },
        None => match arch_synonym_exec(t) {
            Some(a) => {
                if a == target.host_arch() { TokenClass::Arch } else { TokenClass::Reject }
            },
            None => {
                if chars_eq_str(t, "pc") || chars_eq_str(t, "unknown") || chars_eq_str(t, "apple")
                    || chars_eq_str(t, "msvc") || chars_eq_str(t, "exe") {
                    TokenClass::Neutral
                } else if chars_eq_str(t, "universal") {
                    TokenClass::Arch
                } else if chars_eq_str(t, "musl") {
                    TokenClass::Musl
                } else if chars_eq_str(t, "gnu") {
                    TokenClass::Gnu
                } else if is_version_token_exec(t) {
                    TokenClass::Neutral
                } else if chars_eq_str(t, "baseline") || chars_eq_str(t, "profile") || chars_eq_str(t, "debug") {
                    TokenClass::Modifier
                } else {
                    TokenClass::Reject
                }
            },
        },
    }
}

// ───────────────────────── scoring ─────────────────────────

/// The asset stem after the tool prefix, as characters.
fn stem_after_prefix(norm: &Vec<char>, prefix: &Vec<char>) -> (r: Option<Vec<char>>)
    ensures
        r is None <==> strip_asset_prefix(archive_stem(norm@), prefix@) is None,
        r matches Some(v) ==> strip_asset_prefix(archive_stem(norm@), prefix@) == Some(v@) && v@.len() <= norm@.len(),
{
    let tar_gz = chars_of(".tar.gz");
    let tgz = chars_of(".tgz");
    let zip = chars_of(".zip");
    proof {
        reveal_strlit(".tar.gz");
        reveal_strlit(".tgz");
        reveal_strlit(".zip");
    }
    let n = norm.len();
    assert(norm@.subrange(0, n as int) =~= norm@);
    let a = trim_end_matches_len(norm, n, &tar_gz);
    let b = trim_end_matches_len(norm, a, &tgz);
    let c = trim_end_matches_len(norm, b, &zip);
    let stem = sub_chars(norm, 0, c);
    let mut dash = prefix.clone();
    dash.push('-');
    let mut under = prefix.clone();
    under.push('_');
    if starts_with_exec(&stem, &dash) || starts_with_exec(&stem, &under) {
        let rest = sub_chars(&stem, prefix.len() + 1, stem.len());
        assert(rest@ =~= stem@.skip(prefix@.len() + 1int));
        Some(rest)
    } else {
        None
    }
}

/// Scores an asset name that is already lower-cased (`None`: the asset does
/// not fit the target).
pub fn score_lowered(lower: &str, asset_prefix: &str, target: Target) -> (r: Option<i128>)
    ensures
        match asset_score(lower@, asset_prefix@, target) {
            None => r is None,
            Some(s) => r is Some && s == r->0 as int,
        },
{
    let lv = chars_of(lower);
    let pat = chars_of("x86_64");
    let rep = chars_of("x64");
    proof {
        reveal_strlit("x86_64");
        reveal_strlit("x64");
        lemma_replace_all_len(lv@, pat@, rep@);
    }
    let norm = replace_all_exec(&lv, &pat, &rep);
    let tar_gz = chars_of(".tar.gz");
    let tgz = chars_of(".tgz");
    let zip = chars_of(".zip");
    if !(ends_with_exec(&norm, &zip) || ends_with_exec(&norm, &tar_gz) || ends_with_exec(&norm, &tgz)) {
        return None;
    }
    let prefix = chars_of(asset_prefix);
    let rest = match stem_after_prefix(&norm, &prefix) {
        None => {
            return None;
        },
        Some(rest) => rest,
    };
    let seps = vec!['-', '_', '.'];
    assert(seps@ =~= seq!['-', '_', '.']);
    let tokens = split_nonempty(&rest, &seps);
    let ghost ts = asset_tokens(rest@);
    if tokens.len() == 0 {
        return None;
    }
    let musl = target.is_musl();
    let mut os_hit = false;
    let mut arch_hit = false;
    let mut musl_hit = false;
    let mut gnu_hit = false;
    let mut mods: usize = 0;
    let mut i: usize = 0;
    while i < tokens.len()
        invariant
            ts == asset_tokens(rest@),
            has_archive_ext(replace_all(lower@, "x86_64"@, "x64"@)),
            strip_asset_prefix(archive_stem(replace_all(lower@, "x86_64"@, "x64"@)), asset_prefix@) == Some(rest@),
            ts.len() > 0,
            tokens@.len() == ts.len(),
            forall|k: int| 0 <= k < tokens@.len() ==> (#[trigger] tokens@[k])@ == ts[k],
            i <= tokens@.len(),
            mods <= i,
            mods == count_class(ts.take(i as int), target, TokenClass::Modifier),
            forall|j: int| 0 <= j < i ==> token_class(#[trigger] ts[j], target) != TokenClass::Reject,
            os_hit == exists|j: int| 0 <= j < i && token_class(#[trigger] ts[j], target) == TokenClass::Os,
            arch_hit == exists|j: int| 0 <= j < i && token_class(#[trigger] ts[j], target) == TokenClass::Arch,
            musl_hit == exists|j: int| 0 <= j < i && token_class(#[trigger] ts[j], target) == TokenClass::Musl,
            gnu_hit == exists|j: int| 0 <= j < i && token_class(#[trigger] ts[j], target) == TokenClass::Gnu,
        decreases tokens.len() - i,
    {
        let c = classify_token(&tokens[i], target);
        assert(ts.take(i + 1).drop_last() =~= ts.take(i as int));
        assert(ts.take(i + 1).last() == ts[i as int]);
        match c {
            TokenClass::Reject => {
                assert(has_class(ts, target, TokenClass::Reject));
                return None;
            },
            TokenClass::Os => {
                os_hit = true;
            },
            TokenClass::Arch => {
                arch_hit = true;
            },
            TokenClass::Musl => {
                musl_hit = true;
            },
            TokenClass::Gnu => {
                gnu_hit = true;
            },
            TokenClass::Modifier => {
                mods = mods + 1;
            },
            TokenClass::Neutral => {},
        }
        i = i + 1;
    }
    assert(ts.take(ts.len() as int) =~= ts);
    if !os_hit || !arch_hit {
        return None;
    }
    assert(mods <= usize::MAX);
    let mut score: i128 = -4 * (mods as i128);
    if musl_hit && !musl {
        score = score - 3;
    }
    if gnu_hit && musl {
        score = score - 3;
    }
    Some(score)
}

/// Scores a candidate name: lower-cases it, then `score_lowered`.
fn score_asset(name: &str, asset_prefix: &str, target: Target) -> (r: Option<i128>)
    ensures
        match candidate_score(name@, asset_prefix@, target) {
            None => r is None,
            Some(s) => r is Some && s == r->0 as int,
        },
{
    let lower = to_lowercase(name);
    score_lowered(lower.as_str(), asset_prefix, target)
}

/// Picks the asset that fits the target best; `None` when none fits (the
/// caller then falls back to its download template).
///
/// `asset_prefix` is the tool's name in its asset names, without separator
/// (`"bun"`, `"pnpm"`, `"gh"`).
pub fn pick_asset<'a>(candidates: &[AssetCandidate<'a>], asset_prefix: &str, target: Target) -> (r: Option<AssetCandidate<'a>>)
    ensures
        ({
            let sc = candidate_scores(candidates@, asset_prefix@, target);
            &&& (r is None <==> !any_scored(sc))
            &&& (r matches Some(c) ==> exists|i: int| is_best(sc, i) && c == #[trigger] candidates@[i])
        }),
{
    let ghost sc = candidate_scores(candidates@, asset_prefix@, target);
    let mut best: Option<(usize, i128)> = None;
    let mut i: usize = 0;
    while i < candidates.len()
        invariant
            sc == candidate_scores(candidates@, asset_prefix@, target),
            sc.len() == candidates@.len(),
            i <= candidates@.len(),
            best is None ==> forall|j: int| 0 <= j < i ==> sc[j] is None,
            best matches Some(b) ==> {
                &&& b.0 < i
                &&& sc[b.0 as int] == Some(b.1 as int)
                &&& forall|j: int| 0 <= j < i && sc[j] is Some ==> sc[j]->0 <= b.1
                &&& forall|j: int| 0 <= j < b.0 && sc[j] is Some ==> sc[j]->0 < b.1
            },
        decreases candidates.len() - i,
    {
        let s = score_asset(candidates[i].name, asset_prefix, target);
        assert(sc[i as int] == candidate_score(candidates@[i as int].name@, asset_prefix@, target));
        match s {
            None => {},
            Some(v) => {
                match best {
                    None => {
                        best = Some((i, v));
                    },
                    Some(b) => {
                        if v > b.1 {
                            best = Some((i, v));
                        }
                    },
                }
            },
        }
        i = i + 1;
    }
    match best {
        None => {
            assert(!any_scored(sc));
            None
        },
        Some(b) => {
            let c = candidates[b.0];
            assert(is_best(sc, b.0 as int));
            Some(AssetCandidate { name: c.name, download_url: c.download_url })
        },
    }
}

// ───────────────────────── names built from words ─────────────────────────

/// A non-empty word without a separator (`-`, `_` or `.`).
pub open spec fn plain_word(w: Seq<char>) -> bool {
    w.len() > 0 && forall|i: int| 0 <= i < w.len() ==> #[trigger] w[i] != '-' && w[i] != '_' && w[i] != '.'
}

/// The separators of asset tokens.
spec fn token_seps() -> Seq<char> {
    seq!['-', '_', '.']
}

proof fn lemma_split_where_plain(w: Seq<char>)
    requires
        forall|i: int| 0 <= i < w.len() ==> #[trigger] w[i] != '-' && w[i] != '_' && w[i] != '.',
    ensures
        split_where(w, token_seps()) == seq![w],
    decreases w.len(),
{
    let seps = token_seps();
    if w.len() > 0 {
        lemma_split_where_plain(w.drop_last());
        let l = w.last();
        assert(l == w[w.len() - 1]);
        assert(!seps.contains(l)) by {
            if seps.contains(l) {
                let k = choose|k: int| 0 <= k < seps.len() && seps[k] == l;
                assert(k == 0 || k == 1 || k == 2);
            }
        }
        assert(w.drop_last().push(l) =~= w);
        assert(seq![w.drop_last()].update(0, w.drop_last().push(l)) =~= seq![w]);
    } else {
        assert(w =~= Seq::<char>::empty());
        assert(split_where(w, seps) =~= seq![w]);
    }
}

proof fn lemma_split_where_concat(a: Seq<char>, b: Seq<char>)
    ensures
        split_where(a + seq!['-'] + b, token_seps()) == split_where(a, token_seps()) + split_where(b, token_seps()),
    decreases b.len(),
{
    let seps = token_seps();
    let u = a + seq!['-'] + b;
    crate::text::lemma_split_where_len(a, seps);
    assert(seps[0] == '-');
    if b.len() == 0 {
        assert(u.drop_last() =~= a);
        assert(u.last() == '-');
        assert(split_where(u, seps) =~= split_where(a, seps) + split_where(b, seps));
    } else {
        lemma_split_where_concat(a, b.drop_last());
        crate::text::lemma_split_where_len(b.drop_last(), seps);
        assert(u.drop_last() =~= a + seq!['-'] + b.drop_last());
        assert(u.last() == b.last());
        let x = split_where(a, seps);
        let y = split_where(b.drop_last(), seps);
        if seps.contains(b.last()) {
            assert(split_where(u, seps) =~= x + split_where(b, seps));
        } else {
            assert((x + y).update((x + y).len() - 1, (x + y).last().push(b.last())) =~= x + y.update(y.len() - 1, y.last().push(b.last())));
        }
    }
}

proof fn lemma_nonempty_pieces_all(p: Seq<Seq<char>>)
    requires
        forall|i: int| 0 <= i < p.len() ==> (#[trigger] p[i]).len() > 0,
    ensures
        nonempty_pieces(p) == p,
    decreases p.len(),
{
    if p.len() > 0 {
        lemma_nonempty_pieces_all(p.drop_last());
        assert(p[p.len() - 1] == p.last());
        assert(p.drop_last().push(p.last()) =~= p);
    }
}

/// The tokens of words joined with `-` are the words.
proof fn lemma_tokens_of_joined(words: Seq<Seq<char>>)
    requires
        words.len() > 0,
        forall|i: int| 0 <= i < words.len() ==> plain_word(#[trigger] words[i]),
    ensures
        split_where(crate::hook_cache::joined(words, seq!['-']), token_seps()) == words,
        asset_tokens(crate::hook_cache::joined(words, seq!['-'])) == words,
        forall|i: int| 0 <= i < crate::hook_cache::joined(words, seq!['-']).len()
            ==> #[trigger] crate::hook_cache::joined(words, seq!['-'])[i] != '_'
            && crate::hook_cache::joined(words, seq!['-'])[i] != '.',
    decreases words.len(),
{
    let j = crate::hook_cache::joined(words, seq!['-']);
    if words.len() == 1 {
        assert(plain_word(words[0]));
        lemma_split_where_plain(words[0]);
        assert(seq![words[0]] =~= words);
    } else {
        let init = words.drop_last();
        assert forall|i: int| 0 <= i < init.len() implies plain_word(#[trigger] init[i]) by {
            assert(init[i] == words[i]);
        }
        lemma_tokens_of_joined(init);
        let ji = crate::hook_cache::joined(init, seq!['-']);
        assert(plain_word(words[words.len() - 1]));
        assert(words.last() == words[words.len() - 1]);
        lemma_split_where_plain(words.last());
        lemma_split_where_concat(ji, words.last());
        assert(j =~= ji + seq!['-'] + words.last());
        assert(init + seq![words.last()] =~= words);
        assert forall|i: int| 0 <= i < j.len() implies #[trigger] j[i] != '_' && j[i] != '.' by {
            if i < ji.len() {
                assert(j[i] == ji[i]);
            } else if i > ji.len() {
                assert(j[i] == words.last()[i - ji.len() - 1]);
            }
        }
    }
    assert forall|i: int| 0 <= i < words.len() implies (#[trigger] words[i]).len() > 0 by {
        assert(plain_word(words[i]));
    }
    lemma_nonempty_pieces_all(words);
}

/// A text without `_` is left as it is by the `x86_64` rewrite.
proof fn lemma_no_x86_64(s: Seq<char>)
    requires
        forall|i: int| 0 <= i < s.len() ==> #[trigger] s[i] != '_',
    ensures
        replace_all(s, "x86_64"@, "x64"@) == s,
    decreases s.len(),
{
    reveal_strlit("x86_64");
    let pat = "x86_64"@;
    if s.len() >= pat.len() {
        assert(s.subrange(0, pat.len() as int)[3] == s[3]);
        assert(pat[3] == '_');
        assert(s.subrange(0, pat.len() as int) != pat);
        let t = s.drop_first();
        assert forall|i: int| 0 <= i < t.len() implies #[trigger] t[i] != '_' by {
            assert(t[i] == s[i + 1]);
        }
        lemma_no_x86_64(t);
        assert(seq![s[0]] + t =~= s);
    }
}

/// Trimming a suffix that holds a `.` from a text that holds none changes nothing.
proof fn lemma_trim_dotless(s: Seq<char>, p: Seq<char>, k: int)
    requires
        forall|i: int| 0 <= i < s.len() ==> #[trigger] s[i] != '.',
        0 <= k < p.len(),
        p[k] == '.',
    ensures
        trim_end_matches(s, p) == s,
{
    if ends_with(s, p) {
        assert(s.subrange(s.len() - p.len(), s.len() as int)[k] == s[s.len() - p.len() + k]);
    }
}

/// The stem of `stem + ext`, for a stem without `.` and one archive suffix.
proof fn lemma_archive_stem_of(stem: Seq<char>, ext: Seq<char>)
    requires
        forall|i: int| 0 <= i < stem.len() ==> #[trigger] stem[i] != '.',
        ext == ".zip"@ || ext == ".tar.gz"@ || ext == ".tgz"@,
    ensures
        archive_stem(stem + ext) == stem,
        has_archive_ext(stem + ext),
{
    reveal_strlit(".zip");
    reveal_strlit(".tar.gz");
    reveal_strlit(".tgz");
    let tg = ".tar.gz"@;
    let tz = ".tgz"@;
    let zp = ".zip"@;
    let s = stem + ext;
    let n = s.len();
    assert(s.subrange(n - ext.len(), n as int) =~= ext);
    assert(s.subrange(n - ext.len(), n as int) =~= ext);
    assert(s.subrange(0, n - ext.len()) =~= stem);
    lemma_trim_dotless(stem, tg, 0);
    lemma_trim_dotless(stem, tz, 0);
    lemma_trim_dotless(stem, zp, 0);
    if ext == tg {
        assert(ends_with(s, tg));
        assert(trim_end_matches(s, tg) == trim_end_matches(stem, tg));
    } else if ext == tz {
        if ends_with(s, tg) {
            assert(s.subrange(n - 7, n as int)[4] == s[n - 3]);
            assert(s[n - 3] == tz[1]);
        }
        assert(trim_end_matches(s, tg) == s);
        assert(ends_with(s, tz));
        assert(trim_end_matches(s, tz) == trim_end_matches(stem, tz));
    } else {
        if ends_with(s, tg) {
            assert(s.subrange(n - 7, n as int)[4] == s[n - 3]);
            assert(s[n - 3] == zp[1]);
        }
        assert(trim_end_matches(s, tg) == s);
        if ends_with(s, tz) {
            assert(s.subrange(n - 4, n as int)[1] == s[n - 3]);
            assert(s[n - 3] == zp[1]);
        }
        assert(trim_end_matches(s, tz) == s);
        assert(ends_with(s, zp));
        assert(trim_end_matches(s, zp) == trim_end_matches(stem, zp));
    }
}

/// The score of an asset named `{prefix}-{words joined by -}{ext}` (lower
/// case) is decided by the words alone, each taken as one token.
proof fn lemma_dashed_asset_score(prefix: Seq<char>, words: Seq<Seq<char>>, ext: Seq<char>, target: Target)
    requires
        plain_word(prefix),
        words.len() > 0,
        forall|i: int| 0 <= i < words.len() ==> plain_word(#[trigger] words[i]),
        ext == ".zip"@ || ext == ".tar.gz"@ || ext == ".tgz"@,
    ensures
        asset_score(prefix + seq!['-'] + crate::hook_cache::joined(words, seq!['-']) + ext, prefix, target) == (
        if has_class(words, target, TokenClass::Reject) || !has_class(words, target, TokenClass::Os)
            || !has_class(words, target, TokenClass::Arch) {
            None
        } else {
            Some(tokens_score(words, target))
        }),
{
    reveal_strlit(".zip");
    reveal_strlit(".tar.gz");
    reveal_strlit(".tgz");
    let j = crate::hook_cache::joined(words, seq!['-']);
    lemma_tokens_of_joined(words);
    let stem = prefix + seq!['-'] + j;
    let name = stem + ext;
    assert forall|i: int| 0 <= i < stem.len() implies #[trigger] stem[i] != '.' && stem[i] != '_' by {
        if i < prefix.len() {
            assert(stem[i] == prefix[i]);
        } else if i > prefix.len() {
            assert(stem[i] == j[i - prefix.len() - 1]);
        }
    }
    assert forall|i: int| 0 <= i < name.len() implies #[trigger] name[i] != '_' by {
        if i < stem.len() {
            assert(name[i] == stem[i]);
        } else {
            assert(name[i] == ext[i - stem.len()]);
        }
    }
    lemma_no_x86_64(name);
    lemma_archive_stem_of(stem, ext);
    assert(prefix.push('-') =~= prefix + seq!['-']);
    assert(stem.subrange(0, prefix.len() + 1int) =~= prefix.push('-'));
    assert(stem.skip(prefix.len() + 1int) =~= j);
    assert(strip_asset_prefix(archive_stem(name), prefix) == Some(j));
}

/// `w` is a word for the target's OS.
pub open spec fn names_target_os(w: Seq<char>, target: Target) -> bool {
    ||| target.os == TargetOs::MacOs && (w == "macos"@ || w == "darwin"@)
    ||| target.os == TargetOs::Linux && w == "linux"@
    ||| target.os == TargetOs::Windows && (w == "windows"@ || w == "win"@)
}

/// `w` is a word for the target's architecture.
pub open spec fn names_target_arch(w: Seq<char>, target: Target) -> bool {
    ||| target.arch == TargetArch::Aarch64 && (w == "aarch64"@ || w == "arm64"@)
    ||| target.arch == TargetArch::X86_64 && (w == "x64"@ || w == "amd64"@)
}

proof fn lemma_os_word_class(w: Seq<char>, target: Target)
    requires
        names_target_os(w, target),
    ensures
        token_class(w, target) == TokenClass::Os,
        plain_word(w),
{
    reveal_strlit("macos");
    reveal_strlit("darwin");
    reveal_strlit("linux");
    reveal_strlit("windows");
    reveal_strlit("win");
    reveal_strlit("win32");
    reveal_strlit("mac");
    reveal_strlit("osx");
    assert(!is_digit(w[w.len() - 1]));
    lemma_trim_digits_take(w, w.len() as int);
    assert(w.take(w.len() as int) =~= w);
    assert(trim_trailing_digits(w) == w);
    if w == "macos"@ {
        assert(w != "linux"@) by { assert(w[0] != "linux"@[0]); }
        assert(os_synonym(w) == Some(HostOs::Darwin));
    } else if w == "darwin"@ {
        assert(os_synonym(w) == Some(HostOs::Darwin));
    } else if w == "linux"@ {
        assert(w != "macos"@) by { assert(w[0] != "macos"@[0]); }
        assert(os_synonym(w) == Some(HostOs::Linux));
    } else if w == "windows"@ {
        assert(os_synonym(w) == Some(HostOs::Windows));
    } else {
        assert(os_synonym(w) == Some(HostOs::Windows));
    }
}

proof fn lemma_arch_word_class(w: Seq<char>, target: Target)
    requires
        names_target_arch(w, target),
    ensures
        token_class(w, target) == TokenClass::Arch,
        plain_word(w),
{
    reveal_strlit("aarch64");
    reveal_strlit("arm64");
    reveal_strlit("x64");
    reveal_strlit("amd64");
    reveal_strlit("windows");
    reveal_strlit("win32");
    reveal_strlit("win");
    reveal_strlit("darwin");
    reveal_strlit("macos");
    reveal_strlit("mac");
    reveal_strlit("osx");
    reveal_strlit("linux");
    reveal_strlit("x86_64");
    reveal_strlit("x86");
    reveal_strlit("386");
    reveal_strlit("i686");
    reveal_strlit("i386");
    let k = w.len() - 2;
    assert(is_digit(w[w.len() - 1]) && is_digit(w[w.len() - 2]) && !is_digit(w[k - 1]));
    assert forall|j: int| k <= j < w.len() implies is_digit(#[trigger] w[j]) by {
        assert(j == k || j == k + 1);
    }
    lemma_trim_digits_take(w, k);
    let b = w.take(k);
    assert(trim_trailing_digits(w) == b);
    assert(b[0] == w[0]);
    if b.len() == 3 {
        assert(b[1] == w[1] && b[2] == w[2]);
        assert(b != "win"@ && b != "mac"@ && b != "osx"@) by {
            assert(b[1] != "win"@[1] || b[0] != "win"@[0]);
            assert(b[0] != "mac"@[0] || b[1] != "mac"@[1]);
            assert(b[0] != "osx"@[0]);
        }
    }
    if b.len() == 5 {
        assert(b != "macos"@ && b != "linux"@ && b != "win32"@) by {
            assert(b[0] != "macos"@[0] && b[0] != "linux"@[0] && b[0] != "win32"@[0]);
        }
    }
    assert(os_synonym(w) is None);
    if w == "arm64"@ {
        assert(w != "amd64"@) by { assert(w[1] != "amd64"@[1]); }
        assert(w != "i686"@ && w != "i386"@ && w != "x86"@ && w != "386"@ && w != "x64"@);
        assert(arch_synonym(w) == Some(HostArch::Arm64));
    } else if w == "aarch64"@ {
        assert(w != "x86_64"@) by { assert(w[0] != "x86_64"@[0]); }
        assert(arch_synonym(w) == Some(HostArch::Arm64));
    } else if w == "x64"@ {
        assert(arch_synonym(w) == Some(HostArch::X64));
    } else {
        assert(arch_synonym(w) == Some(HostArch::X64));
    }
    assert(forall|i: int| 0 <= i < w.len() ==> #[trigger] w[i] != '-' && w[i] != '_' && w[i] != '.');
}

proof fn lemma_apple_class(target: Target)
    ensures
        token_class("apple"@, target) == TokenClass::Neutral,
{
    reveal_strlit("apple");
    reveal_strlit("pc");
    reveal_strlit("unknown");
    reveal_strlit("windows");
    reveal_strlit("win32");
    reveal_strlit("win");
    reveal_strlit("darwin");
    reveal_strlit("macos");
    reveal_strlit("mac");
    reveal_strlit("osx");
    reveal_strlit("linux");
    reveal_strlit("x64");
    reveal_strlit("x86_64");
    reveal_strlit("amd64");
    reveal_strlit("arm64");
    reveal_strlit("aarch64");
    reveal_strlit("x86");
    reveal_strlit("386");
    reveal_strlit("i686");
    reveal_strlit("i386");
    let w = "apple"@;
    lemma_trim_digits_take(w, 5);
    assert(w.take(5) =~= w);
    assert(w != "macos"@ && w != "linux"@) by {
        assert(w[0] == 'a');
    }
    assert(os_synonym(w) is None);
    assert(arch_synonym(w) is None) by {
        assert(w[0] == 'a' && w[1] == 'p');
    }
    assert(is_bridge_token(w));
}

/// With every word an OS, architecture or neutral word, there is no
/// variant modifier and no libc token: the score is 0.
proof fn lemma_plain_words_score(words: Seq<Seq<char>>, target: Target)
    requires
        forall|i: int| 0 <= i < words.len() ==> {
            let c = token_class(#[trigger] words[i], target);
            c == TokenClass::Os || c == TokenClass::Arch || c == TokenClass::Neutral
        },
    ensures
        !has_class(words, target, TokenClass::Reject),
        tokens_score(words, target) == 0,
    decreases words.len(),
{
    if words.len() > 0 {
        let init = words.drop_last();
        assert forall|i: int| 0 <= i < init.len() implies {
            let c = token_class(#[trigger] init[i], target);
            c == TokenClass::Os || c == TokenClass::Arch || c == TokenClass::Neutral
        } by {
            assert(init[i] == words[i]);
        }
        lemma_plain_words_score(init, target);
        assert(words.last() == words[words.len() - 1]);
    }
    assert(!has_class(words, target, TokenClass::Musl));
    assert(!has_class(words, target, TokenClass::Gnu));
}

/// On an aarch64 target, an asset named `{prefix}-{os}-arm64` with an
/// archive suffix (lower case, `os` a name of the target's OS) qualifies
/// with score 0, exactly as the same asset named with `aarch64` does:
/// `arm64` names the aarch64 architecture.
pub proof fn lemma_arm64_assets_qualify(prefix: Seq<char>, os_word: Seq<char>, ext: Seq<char>, target: Target)
    requires
        target.arch == TargetArch::Aarch64,
        plain_word(prefix),
        names_target_os(os_word, target),
        ext == ".zip"@ || ext == ".tar.gz"@ || ext == ".tgz"@,
    ensures
        asset_score(prefix + "-"@ + os_word + "-arm64"@ + ext, prefix, target) == Some(0int),
        asset_score(prefix + "-"@ + os_word + "-aarch64"@ + ext, prefix, target) == Some(0int),
{
    reveal_strlit("-");
    reveal_strlit("-arm64");
    reveal_strlit("arm64");
    reveal_strlit("-aarch64");
    reveal_strlit("aarch64");
    lemma_os_word_class(os_word, target);
    let aw = seq!["arm64"@, "aarch64"@];
    assert forall|k: int| 0 <= k < 2 implies asset_score(prefix + "-"@ + os_word + seq!['-'] + #[trigger] aw[k] + ext, prefix, target) == Some(0int) by {
        let a = aw[k];
        lemma_arch_word_class(a, target);
        let words = seq![os_word, a];
        assert(crate::hook_cache::joined(words, seq!['-']) =~= os_word + seq!['-'] + a) by {
            assert(words.drop_last() =~= seq![os_word]);
            assert(crate::hook_cache::joined(seq![os_word], seq!['-']) == os_word);
            assert(words.last() == a);
        }
        lemma_dashed_asset_score(prefix, words, ext, target);
        lemma_plain_words_score(words, target);
        assert(token_class(words[0], target) == TokenClass::Os);
        assert(token_class(words[1], target) == TokenClass::Arch);
        assert(prefix + seq!['-'] + (os_word + seq!['-'] + a) + ext =~= prefix + "-"@ + os_word + seq!['-'] + a + ext);
    }
    assert("-arm64"@ =~= seq!['-'] + aw[0]);
    assert("-aarch64"@ =~= seq!['-'] + aw[1]);
    assert(prefix + "-"@ + os_word + "-arm64"@ + ext =~= prefix + "-"@ + os_word + seq!['-'] + aw[0] + ext);
    assert(prefix + "-"@ + os_word + "-aarch64"@ + ext =~= prefix + "-"@ + os_word + seq!['-'] + aw[1] + ext);
}

/// On macOS, an asset named with a Rust target triple,
/// `{prefix}-{arch}-apple-darwin` with an archive suffix (lower case, `arch`
/// a name of the target's architecture), qualifies with score 0: `apple` is
/// a neutral triple token, for every target.
pub proof fn lemma_apple_triple_assets_qualify(prefix: Seq<char>, arch_word: Seq<char>, ext: Seq<char>, target: Target)
    requires
        target.os == TargetOs::MacOs,
        plain_word(prefix),
        names_target_arch(arch_word, target),
        ext == ".zip"@ || ext == ".tar.gz"@ || ext == ".tgz"@,
    ensures
        asset_score(prefix + "-"@ + arch_word + "-apple-darwin"@ + ext, prefix, target) == Some(0int),
        forall|t: Target| token_class("apple"@, t) == TokenClass::Neutral,
{
    reveal_strlit("-");
    reveal_strlit("-apple-darwin");
    reveal_strlit("apple");
    reveal_strlit("darwin");
    lemma_arch_word_class(arch_word, target);
    lemma_os_word_class("darwin"@, target);
    lemma_apple_class(target);
    assert forall|t: Target| token_class("apple"@, t) == TokenClass::Neutral by {
        lemma_apple_class(t);
    }
    let words = seq![arch_word, "apple"@, "darwin"@];
    assert(plain_word("apple"@));
    assert(crate::hook_cache::joined(words, seq!['-']) =~= arch_word + seq!['-'] + "apple"@ + seq!['-'] + "darwin"@) by {
        let w2 = seq![arch_word, "apple"@];
        assert(words.drop_last() =~= w2);
        assert(w2.drop_last() =~= seq![arch_word]);
        assert(crate::hook_cache::joined(seq![arch_word], seq!['-']) == arch_word);
        assert(crate::hook_cache::joined(w2, seq!['-']) == arch_word + seq!['-'] + "apple"@);
        assert(words.last() == "darwin"@);
    }
    lemma_dashed_asset_score(prefix, words, ext, target);
    lemma_plain_words_score(words, target);
    assert(token_class(words[0], target) == TokenClass::Arch);
    assert(token_class(words[2], target) == TokenClass::Os);
    assert(prefix + seq!['-'] + (arch_word + seq!['-'] + "apple"@ + seq!['-'] + "darwin"@) + ext
        =~= prefix + "-"@ + arch_word + "-apple-darwin"@ + ext);
}

proof fn lemma_word_classes(target: Target)
    ensures
        token_class("baseline"@, target) == TokenClass::Modifier,
        token_class("musl"@, target) == TokenClass::Musl,
        token_class("gnu"@, target) == TokenClass::Gnu,
{
    reveal_strlit("baseline");
    reveal_strlit("musl");
    reveal_strlit("gnu");
    reveal_strlit("pc");
    reveal_strlit("unknown");
    reveal_strlit("apple");
    reveal_strlit("msvc");
    reveal_strlit("exe");
    reveal_strlit("universal");
    reveal_strlit("windows");
    reveal_strlit("win32");
    reveal_strlit("win");
    reveal_strlit("darwin");
    reveal_strlit("macos");
    reveal_strlit("mac");
    reveal_strlit("osx");
    reveal_strlit("linux");
    reveal_strlit("x64");
    reveal_strlit("x86_64");
    reveal_strlit("amd64");
    reveal_strlit("arm64");
    reveal_strlit("aarch64");
    reveal_strlit("x86");
    reveal_strlit("386");
    reveal_strlit("i686");
    reveal_strlit("i386");
    let b = "baseline"@;
    let m = "musl"@;
    let g = "gnu"@;
    lemma_trim_digits_take(b, 8);
    lemma_trim_digits_take(m, 4);
    lemma_trim_digits_take(g, 3);
    assert(b.take(8) =~= b);
    assert(m.take(4) =~= m);
    assert(g.take(3) =~= g);
    assert(os_synonym(b) is None);
    assert(os_synonym(m) is None) by {
        assert(m[0] != "i686"@[0] && m[0] != "i386"@[0]);
    }
    assert(os_synonym(g) is None) by {
        assert(g[0] != "win"@[0] && g[0] != "mac"@[0] && g[0] != "osx"@[0]);
    }
    assert(arch_synonym(b) is None);
    assert(arch_synonym(m) is None) by {
        assert(m[0] != "i686"@[0] && m[0] != "i386"@[0]);
    }
    assert(arch_synonym(g) is None) by {
        assert(g[0] != "x64"@[0] && g[0] != "x86"@[0] && g[0] != "386"@[0]);
    }
    assert(!is_bridge_token(b));
    assert(!is_bridge_token(m)) by {
        assert(m[0] != "msvc"@[1]);
        assert(m[1] != "msvc"@[1]);
    }
    assert(!is_bridge_token(g)) by {
        assert(g[0] != "exe"@[0]);
    }
    assert(b != "universal"@ && b != "musl"@ && b != "gnu"@);
    assert(m != "universal"@);
    assert(g != "universal"@ && g != "musl"@);
    assert(!is_version_token(b)) by {
        assert(version_digits(b) == b);
        assert(!is_digit(b[0]));
    }
    assert(is_modifier_token(b));
}

/// The score of `{prefix}-{os}-{arch}-{w}` for one more word `w` that is a
/// modifier or a libc token.
proof fn lemma_extra_word_score(prefix: Seq<char>, os_word: Seq<char>, arch_word: Seq<char>, w: Seq<char>, ext: Seq<char>, target: Target)
    requires
        plain_word(prefix),
        names_target_os(os_word, target),
        names_target_arch(arch_word, target),
        plain_word(w),
        token_class(w, target) == TokenClass::Modifier || token_class(w, target) == TokenClass::Musl
            || token_class(w, target) == TokenClass::Gnu,
        ext == ".zip"@ || ext == ".tar.gz"@ || ext == ".tgz"@,
    ensures
        asset_score(prefix + seq!['-'] + (os_word + seq!['-'] + arch_word + seq!['-'] + w) + ext, prefix, target) == Some(
            (if token_class(w, target) == TokenClass::Modifier { -4int } else { 0int })
            - (if token_class(w, target) == TokenClass::Musl && target.env != TargetEnv::Musl { 3int } else { 0int })
            - (if token_class(w, target) == TokenClass::Gnu && target.env == TargetEnv::Musl { 3int } else { 0int }),
        ),
{
    lemma_os_word_class(os_word, target);
    lemma_arch_word_class(arch_word, target);
    let words = seq![os_word, arch_word, w];
    assert(words.drop_last() =~= seq![os_word, arch_word]);
    assert(seq![os_word, arch_word].drop_last() =~= seq![os_word]);
    assert(seq![os_word].drop_last() =~= Seq::<Seq<char>>::empty());
    assert(crate::hook_cache::joined(seq![os_word], seq!['-']) == os_word);
    assert(crate::hook_cache::joined(seq![os_word, arch_word], seq!['-']) =~= os_word + seq!['-'] + arch_word);
    assert(words.last() == w);
    assert(crate::hook_cache::joined(words, seq!['-']) =~= os_word + seq!['-'] + arch_word + seq!['-'] + w);
    assert forall|i: int| 0 <= i < 3 implies plain_word(#[trigger] words[i]) by {}
    lemma_dashed_asset_score(prefix, words, ext, target);
    assert(token_class(words[0], target) == TokenClass::Os);
    assert(token_class(words[1], target) == TokenClass::Arch);
    assert(token_class(words[2], target) == token_class(w, target));
    assert(!has_class(words, target, TokenClass::Reject)) by {
        assert forall|j: int| 0 <= j < 3 implies token_class(#[trigger] words[j], target) != TokenClass::Reject by {}
    }
    assert(has_class(words, target, TokenClass::Os));
    assert(has_class(words, target, TokenClass::Arch));
    let c = token_class(w, target);
    assert(has_class(words, target, TokenClass::Musl) == (c == TokenClass::Musl)) by {
        if has_class(words, target, TokenClass::Musl) {
            let j = choose|j: int| 0 <= j < words.len() && token_class(#[trigger] words[j], target) == TokenClass::Musl;
            assert(j == 2);
        }
    }
    assert(has_class(words, target, TokenClass::Gnu) == (c == TokenClass::Gnu)) by {
        if has_class(words, target, TokenClass::Gnu) {
            let j = choose|j: int| 0 <= j < words.len() && token_class(#[trigger] words[j], target) == TokenClass::Gnu;
            assert(j == 2);
        }
    }
    assert(count_class(Seq::<Seq<char>>::empty(), target, TokenClass::Modifier) == 0);
    assert(seq![os_word].last() == os_word);
    assert(count_class(seq![os_word], target, TokenClass::Modifier) == 0);
    assert(seq![os_word, arch_word].last() == arch_word);
    assert(count_class(seq![os_word, arch_word], target, TokenClass::Modifier) == 0);
    assert(words.last() == w);
}

/// How an asset named `{prefix}-{os}-{arch}` with an archive suffix (lower
/// case, `os` and `arch` names of the target's OS and architecture) scores:
/// 0 as it is; 4 less with a `baseline` variant modifier; 3 less with a
/// `musl` libc token unless the target uses musl, and with a `gnu` one when
/// it does.
pub proof fn lemma_asset_score_adjustments(prefix: Seq<char>, os_word: Seq<char>, arch_word: Seq<char>, ext: Seq<char>, target: Target)
    requires
        plain_word(prefix),
        names_target_os(os_word, target),
        names_target_arch(arch_word, target),
        ext == ".zip"@ || ext == ".tar.gz"@ || ext == ".tgz"@,
    ensures
        asset_score(prefix + "-"@ + os_word + "-"@ + arch_word + ext, prefix, target) == Some(0int),
        asset_score(prefix + "-"@ + os_word + "-"@ + arch_word + "-baseline"@ + ext, prefix, target) == Some(-4int),
        asset_score(prefix + "-"@ + os_word + "-"@ + arch_word + "-musl"@ + ext, prefix, target)
            == Some(if target.env == TargetEnv::Musl { 0int } else { -3int }),
        asset_score(prefix + "-"@ + os_word + "-"@ + arch_word + "-gnu"@ + ext, prefix, target)
            == Some(if target.env == TargetEnv::Musl { -3int } else { 0int }),
{
    reveal_strlit("-");
    reveal_strlit("-baseline");
    reveal_strlit("baseline");
    reveal_strlit("-musl");
    reveal_strlit("musl");
    reveal_strlit("-gnu");
    reveal_strlit("gnu");
    lemma_os_word_class(os_word, target);
    lemma_arch_word_class(arch_word, target);
    lemma_word_classes(target);
    let base = seq![os_word, arch_word];
    let jb = os_word + seq!['-'] + arch_word;
    assert(crate::hook_cache::joined(base, seq!['-']) =~= jb) by {
        assert(base.drop_last() =~= seq![os_word]);
        assert(crate::hook_cache::joined(seq![os_word], seq!['-']) == os_word);
    }
    lemma_dashed_asset_score(prefix, base, ext, target);
    lemma_plain_words_score(base, target);
    assert(token_class(base[0], target) == TokenClass::Os);
    assert(token_class(base[1], target) == TokenClass::Arch);
    assert(prefix + seq!['-'] + jb + ext =~= prefix + "-"@ + os_word + "-"@ + arch_word + ext);
    assert(plain_word("baseline"@) && plain_word("musl"@) && plain_word("gnu"@));
    lemma_extra_word_score(prefix, os_word, arch_word, "baseline"@, ext, target);
    lemma_extra_word_score(prefix, os_word, arch_word, "musl"@, ext, target);
    lemma_extra_word_score(prefix, os_word, arch_word, "gnu"@, ext, target);
    assert(prefix + seq!['-'] + (jb + seq!['-'] + "baseline"@) + ext =~= prefix + "-"@ + os_word + "-"@ + arch_word + "-baseline"@ + ext);
    assert(prefix + seq!['-'] + (jb + seq!['-'] + "musl"@) + ext =~= prefix + "-"@ + os_word + "-"@ + arch_word + "-musl"@ + ext);
    assert(prefix + seq!['-'] + (jb + seq!['-'] + "gnu"@) + ext =~= prefix + "-"@ + os_word + "-"@ + arch_word + "-gnu"@ + ext);
}

/// An asset named for another OS, or for another architecture, than the
/// target's does not qualify: `{prefix}-{os}-{arch}` (with an archive
/// suffix) where `os` names the OS of a target `other` with another OS, or
/// `arch` the architecture of a target with another architecture.
pub proof fn lemma_foreign_assets_rejected(prefix: Seq<char>, os_word: Seq<char>, arch_word: Seq<char>, ext: Seq<char>, target: Target, other: Target)
    requires
        plain_word(prefix),
        ext == ".zip"@ || ext == ".tar.gz"@ || ext == ".tgz"@,
        names_target_os(os_word, other),
        names_target_arch(arch_word, other),
        host_os_spec(other) != host_os_spec(target) || host_arch_spec(other) != host_arch_spec(target),
    ensures
        asset_score(prefix + "-"@ + os_word + "-"@ + arch_word + ext, prefix, target) is None,
{
    reveal_strlit("-");
    lemma_os_word_class(os_word, other);
    lemma_arch_word_class(arch_word, other);
    let base = seq![os_word, arch_word];
    let jb = os_word + seq!['-'] + arch_word;
    assert(crate::hook_cache::joined(base, seq!['-']) =~= jb) by {
        assert(base.drop_last() =~= seq![os_word]);
        assert(crate::hook_cache::joined(seq![os_word], seq!['-']) == os_word);
    }
    lemma_dashed_asset_score(prefix, base, ext, target);
    assert(prefix + seq!['-'] + jb + ext =~= prefix + "-"@ + os_word + "-"@ + arch_word + ext);
    if host_os_spec(other) != host_os_spec(target) {
        assert(token_class(base[0], target) == TokenClass::Reject);
    } else {
        assert(os_synonym(arch_word) is None);
        assert(token_class(base[1], target) == TokenClass::Reject);
    }
    assert(has_class(base, target, TokenClass::Reject));
}
} // verus!
