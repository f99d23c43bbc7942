//! Self-update decisions: comparing the latest release with the running
//! version, and choosing the release asset of the platform. Querying GitHub,
//! downloading, extracting and swapping binaries happen at the edge of the
//! program.

use vstd::prelude::*;
use crate::platform::{Target, TargetArch, TargetEnv, TargetOs};
use crate::text::{
    all_digits, append_str, before_first, chars_of, contains_exec, contains_seq, decimal, digits_upto, is_digit,
    lemma_decimal, lemma_split_concat, lemma_split_no_sep, parse_digits_upto, split_chars, split_on, str_eq, string_of,
    sub_chars, trim, trim_range,
};

verus! {

/// The version in a release tag: trimmed, leading `v`s removed.
pub open spec fn strip_v_text(tag: Seq<char>) -> Seq<char> {
    crate::version::discovery::trim_leading(trim(tag), 'v')
}

proof fn lemma_trim_leading_skip(s: Seq<char>, c: char, k: int)
    requires
        0 <= k <= s.len(),
        forall|j: int| 0 <= j < k ==> s[j] == c,
        k == s.len() || s[k] != c,
    ensures
        crate::version::discovery::trim_leading(s, c) == s.skip(k),
    decreases k,
{
    if k > 0 {
        let t = s.drop_first();
        assert forall|j: int| 0 <= j < k - 1 implies t[j] == c by {
            assert(t[j] == s[j + 1]);
        }
        if k < s.len() {
            assert(t[k - 1] == s[k]);
        }
        lemma_trim_leading_skip(t, c, k - 1);
        assert(t.skip(k - 1) =~= s.skip(k));
    } else {
        assert(s.skip(0) =~= s);
    }
}

/// The version in a release tag (`" v1.2.3 "` → `"1.2.3"`).
pub fn strip_v(tag: &str) -> (r: String)
    ensures
        r@ == strip_v_text(tag@),
{
    let v = chars_of(tag);
    let (a, b) = trim_range(&v);
    let t = sub_chars(&v, a, b);
    let mut k: usize = 0;
    while k < t.len() && t[k] == 'v'
        invariant
            k <= t@.len(),
            forall|j: int| 0 <= j < k ==> t@[j] == 'v',
        decreases t.len() - k,
    {
        k = k + 1;
    }
    proof {
        lemma_trim_leading_skip(t@, 'v', k as int);
    }
    let rest = sub_chars(&t, k, t.len());
    assert(rest@ =~= t@.skip(k as int));
    string_of(&rest)
}

/// The leading ASCII digits of a text.
pub open spec fn leading_digits(s: Seq<char>) -> Seq<char>
    decreases s.len(),
{
    if s.len() > 0 && is_digit(s[0]) {
        seq![s[0]] + leading_digits(s.drop_first())
    } else {
        Seq::<char>::empty()
    }
}

/// The number a version segment starts with (0 when it starts with no
/// digit or the number does not fit in `u64`).
pub open spec fn first_digits_value(seg: Seq<char>) -> nat {
    match digits_upto(leading_digits(seg), u64::MAX as nat) {
        Some(n) => n,
        None => 0,
    }
}

proof fn lemma_leading_digits(s: Seq<char>, k: int)
    requires
        0 <= k <= s.len(),
        forall|j: int| 0 <= j < k ==> is_digit(#[trigger] s[j]),
        k == s.len() || !is_digit(s[k]),
    ensures
        leading_digits(s) == s.take(k),
    decreases k,
{
    if k > 0 {
        let t = s.drop_first();
        assert(is_digit(s[0]));
        assert forall|j: int| 0 <= j < k - 1 implies is_digit(#[trigger] t[j]) by {
            assert(t[j] == s[j + 1]);
        }
        if k < s.len() {
            assert(t[k - 1] == s[k]);
        }
        lemma_leading_digits(t, k - 1);
        assert(s.take(k) =~= seq![s[0]] + t.take(k - 1));
    } else {
        assert(s.take(0) =~= Seq::<char>::empty());
    }
}

/// The number a version segment starts with.
pub fn first_digits(seg: &str) -> (r: u64)
    ensures
        r as nat == first_digits_value(seg@),
{
    let v = chars_of(seg);
    let mut k: usize = 0;
    while k < v.len() && '0' <= v[k] && v[k] <= '9'
        invariant
            k <= v@.len(),
            forall|j: int| 0 <= j < k ==> is_digit(#[trigger] v@[j]),
        decreases v.len() - k,
    {
        k = k + 1;
    }
    proof {
        lemma_leading_digits(v@, k as int);
    }
    let d = sub_chars(&v, 0, k);
    assert(d@.subrange(0, d@.len() as int) =~= d@);
    match parse_digits_upto(&d, 0, u64::MAX) {
        Some(n) => n,
        None => 0,
    }
}

/// The segment at `i` of a dotted text, if there is one.
pub open spec fn segment_value(s: Seq<char>, i: int) -> nat {
    let p = split_on(s, '.');
    if i < p.len() { first_digits_value(p[i]) } else { 0 }
}

/// (major, minor, patch) of a version text: the numbers the first three
/// `.`-separated segments start with, 0 where missing.
pub open spec fn version_triple(s: Seq<char>) -> (nat, nat, nat) {
    (segment_value(s, 0), segment_value(s, 1), segment_value(s, 2))
}

/// (major, minor, patch) of a version text.
pub fn parse_ver(s: &str) -> (r: (u64, u64, u64))
    ensures
        (r.0 as nat, r.1 as nat, r.2 as nat) == version_triple(s@),
{
    let v = chars_of(s);
    let parts = split_chars(&v, '.');
    let major = if parts.len() > 0 { first_digits(string_of(&parts[0]).as_str()) } else { 0 };
    let minor = if parts.len() > 1 { first_digits(string_of(&parts[1]).as_str()) } else { 0 };
    let patch = if parts.len() > 2 { first_digits(string_of(&parts[2]).as_str()) } else { 0 };
    (major, minor, patch)
}

/// Tuple order of version triples: `a` is later than `b`.
pub open spec fn triple_gt(a: (nat, nat, nat), b: (nat, nat, nat)) -> bool {
    a.0 > b.0 || (a.0 == b.0 && (a.1 > b.1 || (a.1 == b.1 && a.2 > b.2)))
}

/// Whether `latest` is a later version than `current` (by major, minor, patch).
pub fn is_newer(latest: &str, current: &str) -> (r: bool)
    ensures
        r == triple_gt(version_triple(latest@), version_triple(current@)),
{
    let a = parse_ver(latest);
    let b = parse_ver(current);
    a.0 > b.0 || (a.0 == b.0 && (a.1 > b.1 || (a.1 == b.1 && a.2 > b.2)))
}

/// No version is newer than itself, and of two versions at most one is
/// newer than the other.
pub proof fn lemma_is_newer_strict(a: Seq<char>, b: Seq<char>)
    ensures
        !triple_gt(version_triple(a), version_triple(a)),
        !(triple_gt(version_triple(a), version_triple(b)) && triple_gt(version_triple(b), version_triple(a))),
{
}

/// Newer than a version that is newer than a third is newer than the third.
pub proof fn lemma_is_newer_transitive(a: Seq<char>, b: Seq<char>, c: Seq<char>)
    requires
        triple_gt(version_triple(a), version_triple(b)),
        triple_gt(version_triple(b), version_triple(c)),
    ensures
        triple_gt(version_triple(a), version_triple(c)),
{
}

/// Versions are ordered by (major, minor, patch), the first component in
/// which they differ deciding: a higher major is newer whatever follows; with
/// equal majors a higher minor is newer; with equal majors and minors a
/// higher patch is newer. Equal versions are not newer than each other, and
/// of two different versions one is newer.
pub proof fn lemma_is_newer_by_components(a: Seq<char>, b: Seq<char>)
    ensures
        version_triple(a).0 > version_triple(b).0 ==> triple_gt(version_triple(a), version_triple(b)),
        version_triple(a).0 == version_triple(b).0 && version_triple(a).1 > version_triple(b).1
            ==> triple_gt(version_triple(a), version_triple(b)),
        version_triple(a).0 == version_triple(b).0 && version_triple(a).1 == version_triple(b).1
            && version_triple(a).2 > version_triple(b).2 ==> triple_gt(version_triple(a), version_triple(b)),
        version_triple(a) == version_triple(b) ==> !triple_gt(version_triple(a), version_triple(b)),
        version_triple(a) != version_triple(b) ==> triple_gt(version_triple(a), version_triple(b))
            || triple_gt(version_triple(b), version_triple(a)),
{
}

/// The value of a decimal text as the number a version segment starts with.
proof fn lemma_first_digits_of_decimal(n: nat)
    requires
        n <= u64::MAX,
    ensures
        first_digits_value(decimal(n)) == n,
        !decimal(n).contains('.'),
{
    lemma_decimal(n);
    let d = decimal(n);
    assert forall|j: int| 0 <= j < d.len() implies is_digit(#[trigger] d[j]) by {}
    lemma_leading_digits(d, d.len() as int);
    assert(d.take(d.len() as int) =~= d);
    if d.contains('.') {
        let i = choose|i: int| 0 <= i < d.len() && d[i] == '.';
        assert(is_digit(d[i]));
    }
}

/// A version written `major.minor.patch` in decimal reads back as those
/// three numbers.
pub proof fn lemma_version_triple_of_numbers(major: nat, minor: nat, patch: nat)
    requires
        major <= u64::MAX,
        minor <= u64::MAX,
        patch <= u64::MAX,
    ensures
        version_triple(decimal(major) + "."@ + decimal(minor) + "."@ + decimal(patch)) == (major, minor, patch),
{
    reveal_strlit(".");
    let (x, y, z) = (decimal(major), decimal(minor), decimal(patch));
    lemma_first_digits_of_decimal(major);
    lemma_first_digits_of_decimal(minor);
    lemma_first_digits_of_decimal(patch);
    let s = x + "."@ + y + "."@ + z;
    assert(s =~= (x + seq!['.'] + y) + seq!['.'] + z);
    lemma_split_concat(x + seq!['.'] + y, z, '.');
    lemma_split_concat(x, y, '.');
    lemma_split_no_sep(x, '.');
    lemma_split_no_sep(y, '.');
    lemma_split_no_sep(z, '.');
    let p = split_on(s, '.');
    assert(p =~= seq![x, y, z]);
}

/// A release `major.minor.p` is newer than the running `major.minor.q`
/// exactly when `p > q` (and likewise for minor and major versions): patch
/// releases are offered.
pub proof fn lemma_patch_release_is_newer(major: nat, minor: nat, p: nat, q: nat)
    requires
        major <= u64::MAX,
        minor <= u64::MAX,
        p <= u64::MAX,
        q <= u64::MAX,
    ensures
        triple_gt(
            version_triple(decimal(major) + "."@ + decimal(minor) + "."@ + decimal(p)),
            version_triple(decimal(major) + "."@ + decimal(minor) + "."@ + decimal(q)),
        ) == (p > q),
{
    lemma_version_triple_of_numbers(major, minor, p);
    lemma_version_triple_of_numbers(major, minor, q);
}

/// The release asset name of a platform, if sdkm is released for it.
pub open spec fn platform_asset_spec(t: Target) -> Option<Seq<char>> {
    if t.os == TargetOs::Windows && t.arch == TargetArch::X86_64 {
        Some("sdkm-windows-x86_64.zip"@)
    } else if t.os == TargetOs::MacOs && t.arch == TargetArch::Aarch64 {
        Some("sdkm-macos-aarch64.tar.gz"@)
    } else if t.os == TargetOs::MacOs && t.arch == TargetArch::X86_64 {
        Some("sdkm-macos-x86_64.tar.gz"@)
    } else if t.os == TargetOs::Linux && t.arch == TargetArch::X86_64 && t.env == TargetEnv::Musl {
        Some("sdkm-linux-x86_64-musl.tar.gz"@)
    } else if t.os == TargetOs::Linux && t.arch == TargetArch::X86_64 && t.env == TargetEnv::Gnu {
        Some("sdkm-linux-x86_64-gnu.tar.gz"@)
    } else {
        None
    }
}

/// Why a self-update cannot proceed.
pub enum SelfUpdateError {
    /// sdkm is not released for this platform.
    NoPrebuiltAsset,
    /// The latest release has no asset with this name.
    AssetNotFound { name: String },
}

impl SelfUpdateError {
    /// The error message.
    pub fn message(&self) -> (m: String)
        ensures
            match *self {
                SelfUpdateError::NoPrebuiltAsset => m@ == "no prebuilt sdkm asset for this platform; download manually from https://github.com/borenchan/sdkmate/releases"@,
                SelfUpdateError::AssetNotFound { name } => m@ == "asset `"@ + name@ + "` not found in latest release"@,
            },
    {
        match self {
            SelfUpdateError::NoPrebuiltAsset => String::from_str("no prebuilt sdkm asset for this platform; download manually from https://github.com/borenchan/sdkmate/releases"),
            SelfUpdateError::AssetNotFound { name } => {
                let mut m = String::from_str("asset `");
                append_str(&mut m, name.as_str());
                append_str(&mut m, "` not found in latest release");
                m
            },
        }
    }
}

/// The release asset name of the target platform.
pub fn platform_asset_name(target: Target) -> (r: Result<&'static str, SelfUpdateError>)
    ensures
        match platform_asset_spec(target) {
            Some(n) => r matches Ok(s) && s@ == n,
            None => r matches Err(SelfUpdateError::NoPrebuiltAsset),
        },
{
    match (target.os, target.arch, target.env) {
        (TargetOs::Windows, TargetArch::X86_64, _) => Ok("sdkm-windows-x86_64.zip"),
        (TargetOs::MacOs, TargetArch::Aarch64, _) => Ok("sdkm-macos-aarch64.tar.gz"),
        (TargetOs::MacOs, TargetArch::X86_64, _) => Ok("sdkm-macos-x86_64.tar.gz"),
        (TargetOs::Linux, TargetArch::X86_64, TargetEnv::Musl) => Ok("sdkm-linux-x86_64-musl.tar.gz"),
        (TargetOs::Linux, TargetArch::X86_64, TargetEnv::Gnu) => Ok("sdkm-linux-x86_64-gnu.tar.gz"),
        _ => Err(SelfUpdateError::NoPrebuiltAsset),
    }
}

/// The file name of the sdkm binary on the target.
pub fn current_bin_name(target: Target) -> (r: &'static str)
    ensures
        r@ == if target.os == TargetOs::Windows { "sdkm.exe"@ } else { "sdkm"@ },
{
    if target.is_windows() { "sdkm.exe" } else { "sdkm" }
}

/// The running binary's file name, `sdkm` when it cannot be told.
pub fn bin_name(file_name: Option<&str>) -> (r: String)
    ensures
        r@ == match file_name { Some(n) => n@, None => "sdkm"@ },
{
    match file_name {
        Some(n) => String::from_str(n),
        None => String::from_str("sdkm"),
    }
}

/// What a self-update does.
pub enum SelfUpdatePlan {
    /// The running version is the latest.
    UpToDate { latest: String },
    /// A newer version exists; only report it.
    UpdateAvailable { latest: String },
    /// Download and install this asset of the latest release.
    Download { latest: String, asset_name: String, url: String },
}

/// The position of the first asset called `name` (`names.len()` when none is).
pub open spec fn asset_pos(names: Seq<Seq<char>>, name: Seq<char>) -> int {
    crate::version::discovery::first_equal(names, name)
}

/// The names of (name, URL) assets.
pub open spec fn asset_names(assets: Seq<(String, String)>) -> Seq<Seq<char>> {
    assets.map_values(|a: (String, String)| a.0@)
}

/// Decides the self-update: up to date unless the latest release (its tag
/// with `v` removed) is newer than `current`; with `check`, only report;
/// else the platform's asset of the release, which must be listed.
pub fn plan_self_update(tag_name: &str, current: &str, check: bool, target: Target, assets: &Vec<(String, String)>) -> (r: Result<SelfUpdatePlan, SelfUpdateError>)
    ensures
        ({
            let latest = strip_v_text(tag_name@);
            let newer = triple_gt(version_triple(latest), version_triple(current@));
            &&& (!newer ==> (r matches Ok(SelfUpdatePlan::UpToDate { latest: l }) && l@ == latest))
            &&& (newer && check ==> (r matches Ok(SelfUpdatePlan::UpdateAvailable { latest: l }) && l@ == latest))
            &&& (newer && !check ==> match platform_asset_spec(target) {
                None => r matches Err(SelfUpdateError::NoPrebuiltAsset),
                Some(n) => {
                    let i = asset_pos(asset_names(assets@), n);
                    if i < assets@.len() {
                        (r matches Ok(SelfUpdatePlan::Download { latest: l, asset_name: a, url: u })
                            && l@ == latest && a@ == n && u@ == assets@[i].1@)
                    } else {
                        (r matches Err(SelfUpdateError::AssetNotFound { name }) && name@ == n)
                    }
                },
            })
        }),
{
    let latest = strip_v(tag_name);
    if !is_newer(latest.as_str(), current) {
        return Ok(SelfUpdatePlan::UpToDate { latest });
    }
    if check {
        return Ok(SelfUpdatePlan::UpdateAvailable { latest });
    }
    let name = platform_asset_name(target)?;
    let ghost names = asset_names(assets@);
    let mut k: usize = 0;
    while k < assets.len() && !str_eq(assets[k].0.as_str(), name)
        invariant
            names == asset_names(assets@),
            k <= assets@.len(),
            forall|j: int| 0 <= j < k ==> names[j] != name@,
        decreases assets.len() - k,
    {
        k = k + 1;
    }
    proof {
        crate::version::discovery::lemma_first_equal(names, name@, k as int);
    }
    if k < assets.len() {
        Ok(SelfUpdatePlan::Download { latest, asset_name: String::from_str(name), url: assets[k].1.clone() })
    } else {
        Err(SelfUpdateError::AssetNotFound { name: String::from_str(name) })
    }
}

/// Whether the `--version` output of a new binary names the expected version.
pub fn reports_version(output: &str, target_version: &str) -> (r: bool)
    ensures
        r == contains_seq(output@, target_version@),
{
    let o = chars_of(output);
    let t = chars_of(target_version);
    contains_exec(&o, &t)
}

} // verus!
