//! Version discovery from GitHub Releases.
//!
//! A `version_url` pointing at the GitHub releases API selects this engine:
//! prereleases and drafts are skipped, the version is the tag from its first
//! digit on (it must contain a `.`), the platform asset is picked by the asset
//! selector (its URL becomes the entry's direct download URL), and releases
//! without a matching asset still yield an entry (installation then falls back
//! to the download template). No per-SDK logic is involved.

use vstd::prelude::*;
use crate::platform::Target;
use crate::text::{append_str, chars_of, contains_char, contains_exec, contains_seq, is_digit, starts_with, string_of, sub_chars};
use crate::version::asset_selector::{AssetCandidate, any_scored, candidate_scores, is_best, lemma_best_unique, pick_asset};
use crate::version::discovery::{EntryText, VersionEntry, entry_text, entry_views, make_entry, sort_newest_first, sorted_newest_first};

verus! {

/// Whether a version URL points at the GitHub releases API.
pub fn is_github_releases_url(url: &str) -> (r: bool)
    ensures
        r == contains_seq(url@, "api.github.com/repos/"@),
{
    let u = chars_of(url);
    let p = chars_of("api.github.com/repos/");
    contains_exec(&u, &p)
}

/// The URL with `per_page=100` appended when it is a GitHub releases API URL
/// without a `per_page` parameter (GitHub lists 30 releases by default).
pub open spec fn per_page_url(url: Seq<char>) -> Seq<char> {
    if !contains_seq(url, "api.github.com/repos/"@) || contains_seq(url, "per_page="@) {
        url
    } else if url.contains('?') {
        url + "&per_page=100"@
    } else {
        url + "?per_page=100"@
    }
}

/// Appends `per_page=100` to a GitHub releases API URL that has no `per_page`.
pub fn ensure_per_page(url: &str) -> (r: String)
    ensures
        r@ == per_page_url(url@),
{
    let u = chars_of(url);
    let pp = chars_of("per_page=");
    if !is_github_releases_url(url) || contains_exec(&u, &pp) {
        return String::from_str(url);
    }
    let mut r = String::from_str(url);
    if contains_char(&u, '?') {
        append_str(&mut r, "&per_page=100");
    } else {
        append_str(&mut r, "?per_page=100");
    }
    r
}

/// The request headers for the GitHub releases API (name, value).
pub fn github_api_headers() -> (r: Vec<(String, String)>)
    ensures
        r@.len() == 1,
        r@[0].0@ == "Accept"@,
        r@[0].1@ == "application/vnd.github+json"@,
{
    let mut r: Vec<(String, String)> = Vec::new();
    r.push((String::from_str("Accept"), String::from_str("application/vnd.github+json")));
    r
}

/// An asset of a GitHub release.
pub struct GitHubAsset {
    pub name: String,
    pub browser_download_url: String,
}

/// A GitHub release, as listed by the releases API.
pub struct GitHubRelease {
    pub tag_name: String,
    pub prerelease: bool,
    pub draft: bool,
    pub assets: Vec<GitHubAsset>,
}

/// The tag from its first ASCII digit on.
pub open spec fn skip_to_digit(s: Seq<char>) -> Seq<char>
    decreases s.len(),
{
    if s.len() > 0 && !is_digit(s[0]) {
        skip_to_digit(s.drop_first())
    } else {
        s
    }
}

/// The version of a release tag: the tag from its first digit on, if that
/// is non-empty and contains a `.` (`bun-v1.4.2` → `1.4.2`, `latest` → none).
pub open spec fn tag_version(tag: Seq<char>) -> Option<Seq<char>> {
    let v = skip_to_digit(tag);
    if v.len() == 0 || !v.contains('.') {
        None
    } else {
        Some(v)
    }
}

proof fn lemma_skip_to_digit(s: Seq<char>, k: int)
    requires
        0 <= k <= s.len(),
        forall|j: int| 0 <= j < k ==> !is_digit(#[trigger] s[j]),
        k == s.len() || is_digit(s[k]),
    ensures
        skip_to_digit(s) == s.skip(k),
    decreases k,
{
    if k > 0 {
        let t = s.drop_first();
        assert(!is_digit(s[0]));
        assert forall|j: int| 0 <= j < k - 1 implies !is_digit(#[trigger] t[j]) by {
            assert(t[j] == s[j + 1]);
        }
        if k < s.len() {
            assert(t[k - 1] == s[k]);
        }
        lemma_skip_to_digit(t, k - 1);
        assert(t.skip(k - 1) =~= s.skip(k));
    } else {
        assert(s.skip(0) =~= s);
    }
}

/// The version in a release tag (see `tag_version`).
pub fn strip_tag_prefix(tag: &str) -> (r: Option<String>)
    ensures
        match tag_version(tag@) {
            Some(v) => r matches Some(s) && s@ == v,
            None => r is None,
        },
{
    let t = chars_of(tag);
    let mut k: usize = 0;
    while k < t.len() && !('0' <= t[k] && t[k] <= '9')
        invariant
            k <= t@.len(),
            forall|j: int| 0 <= j < k ==> !is_digit(#[trigger] t@[j]),
        decreases t.len() - k,
    {
        k = k + 1;
    }
    proof {
        lemma_skip_to_digit(t@, k as int);
    }
    let v = sub_chars(&t, k, t.len());
    assert(v@ =~= t@.skip(k as int));
    if v.len() == 0 || !contains_char(&v, '.') {
        return None;
    }
    Some(string_of(&v))
}

/// The direct download URL of a release for the target: that of the asset
/// the selector picks, if any.
pub open spec fn release_asset_url(assets: Seq<GitHubAsset>, prefix: Seq<char>, target: Target) -> Option<Seq<char>> {
    let sc = assets.map_values(|a: GitHubAsset| crate::version::asset_selector::candidate_score(a.name@, prefix, target));
    if any_scored(sc) {
        Some(assets[choose|i: int| is_best(sc, i)].browser_download_url@)
    } else {
        None
    }
}

/// The entry of a release, unless it is a prerelease, a draft, or its tag has no version.
pub open spec fn release_entry_text(rel: GitHubRelease, prefix: Seq<char>, target: Target) -> Option<EntryText> {
    if rel.prerelease || rel.draft {
        None
    } else {
        match tag_version(rel.tag_name@) {
            None => None,
            Some(v) => Some(entry_text(v, Some(rel.tag_name@), release_asset_url(rel.assets@, prefix, target))),
        }
    }
}

/// The entries of the releases, in release order.
pub open spec fn release_entry_texts(rs: Seq<GitHubRelease>, prefix: Seq<char>, target: Target) -> Seq<EntryText>
    decreases rs.len(),
{
    if rs.len() == 0 {
        Seq::<EntryText>::empty()
    } else {
        let prev = release_entry_texts(rs.drop_last(), prefix, target);
        match release_entry_text(rs.last(), prefix, target) {
            Some(e) => prev.push(e),
            None => prev,
        }
    }
}

/// The URL of the asset the selector picks for a release.
fn release_direct_url(assets: &Vec<GitHubAsset>, asset_prefix: &str, target: Target) -> (r: Option<String>)
    ensures
        match release_asset_url(assets@, asset_prefix@, target) {
            Some(u) => r matches Some(s) && s@ == u,
            None => r is None,
        },
{
    let mut cands: Vec<AssetCandidate> = Vec::new();
    let mut i: usize = 0;
    while i < assets.len()
        invariant
            i <= assets@.len(),
            cands@.len() == i,
            forall|j: int| 0 <= j < i ==> (#[trigger] cands@[j]).name@ == assets@[j].name@
                && cands@[j].download_url@ == assets@[j].browser_download_url@,
        decreases assets.len() - i,
    {
        cands.push(AssetCandidate { name: assets[i].name.as_str(), download_url: assets[i].browser_download_url.as_str() });
        i = i + 1;
    }
    let ghost sc_assets = assets@.map_values(|a: GitHubAsset| crate::version::asset_selector::candidate_score(a.name@, asset_prefix@, target));
    let ghost sc = candidate_scores(cands@, asset_prefix@, target);
    assert(sc =~= sc_assets);
    match pick_asset(cands.as_slice(), asset_prefix, target) {
        Some(c) => {
            proof {
                let i = choose|i: int| is_best(sc, i) && c == #[trigger] cands@[i];
                let k = choose|k: int| is_best(sc, k);
                lemma_best_unique(sc, i, k);
            }
            let mut s = String::new();
            append_str(&mut s, c.download_url);
            Some(s)
        },
        None => None,
    }
}

/// The version entries of a GitHub releases listing for a target, newest
/// first (`asset_prefix` gates the asset names, usually the main executable).
pub fn releases_to_entries(releases: &[GitHubRelease], asset_prefix: &str, target: Target) -> (r: Vec<VersionEntry>)
    ensures
        sorted_newest_first(entry_views(r@), release_entry_texts(releases@, asset_prefix@, target)),
{
    let mut out: Vec<VersionEntry> = Vec::new();
    let mut i: usize = 0;
    while i < releases.len()
        invariant
            i <= releases@.len(),
            entry_views(out@) == release_entry_texts(releases@.take(i as int), asset_prefix@, target),
        decreases releases.len() - i,
    {
        let rel = &releases[i];
        assert(releases@.take(i + 1).drop_last() =~= releases@.take(i as int));
        assert(releases@.take(i + 1).last() == releases@[i as int]);
        if !rel.prerelease && !rel.draft {
            match strip_tag_prefix(rel.tag_name.as_str()) {
                Some(version) => {
                    let url = release_direct_url(&rel.assets, asset_prefix, target);
                    let ghost prev = entry_views(out@);
                    out.push(make_entry(version, Some(rel.tag_name.clone()), url));
                    assert(entry_views(out@) =~= prev.push(entry_views(out@).last()));
                },
                None => {},
            }
        }
        i = i + 1;
    }
    assert(releases@.take(releases@.len() as int) =~= releases@);
    sort_newest_first(out)
}

} // verus!
