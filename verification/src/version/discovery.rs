//! Version discovery: turning the version data of each SDK source into
//! version entries, and resolving user input against them.
//!
//! The HTTP bodies are decoded at the edge of the program; the records that
//! come out of them are turned into entries here, and listings are ordered
//! newest first by their `.`-separated numeric components (a stable sort).

use vstd::prelude::*;
use crate::order::{is_stable_order, is_stable_sort_of, key_views, stable_sort_by_keys};
use crate::text::{
    append_str, before_first, before_first_exec, chars_of, decimal, decimal_string, ends_with, ends_with_exec,
    i32_string, int_text, lemma_parse_decimal_u32, lemma_parse_decimal_usize, lemma_split_concat, lemma_split_no_sep,
    parse_i32, parse_i32_spec, push_char, split_on, starts_with, starts_with_exec, str_eq, string_of, sub_chars,
};
use crate::version::fuzzy::{
    NoMatchError, any_flag, comps_of, dot_components, dot_components_of, exact_flags, fuzzy_match_version_core,
    is_closest, is_newest, prefix_flags, strip_v_spec, suggestion_defined, texts_of,
};

verus! {

// ───────────────────────── entries ─────────────────────────

/// A version offered by a source (every discovery strategy yields these).
pub struct VersionEntry {
    pub full_version: String,
    pub feature_version: Option<String>,
    pub release_tag: Option<String>,
    pub download_url: Option<String>,
}

/// A version resolved from user input.
pub struct ResolvedVersion {
    pub full_version: String,
    pub feature_version: Option<String>,
    pub release_tag: Option<String>,
    /// A direct download URL, when the source provides one.
    pub download_url: Option<String>,
    /// Found by prefix rather than exactly (to be confirmed by the user).
    pub fuzzy_matched: bool,
}

/// The text of an optional string.
pub open spec fn opt_text(o: Option<String>) -> Option<Seq<char>> {
    match o {
        Some(s) => Some(s@),
        None => None,
    }
}

/// An entry as text: full version, feature version, release tag, download URL.
pub type EntryText = (Seq<char>, Option<Seq<char>>, Option<Seq<char>>, Option<Seq<char>>);

impl View for VersionEntry {
    type V = EntryText;

    open spec fn view(&self) -> EntryText {
        (self.full_version@, opt_text(self.feature_version), opt_text(self.release_tag), opt_text(self.download_url))
    }
}

/// The texts of a sequence of entries.
pub open spec fn entry_views(es: Seq<VersionEntry>) -> Seq<EntryText> {
    es.map_values(|e: VersionEntry| e@)
}

/// The sort keys of entry texts: the numeric components of the full version.
pub open spec fn entry_keys(es: Seq<EntryText>) -> Seq<Seq<u32>> {
    es.map_values(|e: EntryText| dot_components(e.0))
}

/// An entry for `full`: its feature version is the text before the first `.`.
pub open spec fn entry_text(full: Seq<char>, tag: Option<Seq<char>>, url: Option<Seq<char>>) -> EntryText {
    (full, Some(before_first(full, '.')), tag, url)
}

/// `r` is `items` ordered newest first: stably by numeric components, descending.
pub open spec fn sorted_newest_first(r: Seq<EntryText>, items: Seq<EntryText>) -> bool {
    is_stable_sort_of(r, items, entry_keys(items), true)
}

/// Clones an optional string.
pub fn clone_opt(o: &Option<String>) -> (r: Option<String>)
    ensures
        opt_text(r) == opt_text(*o),
{
    match o {
        Some(s) => Some(s.clone()),
        None => None,
    }
}

/// Builds an entry whose feature version is the text of `full` before its first `.`.
pub fn make_entry(full: String, tag: Option<String>, url: Option<String>) -> (e: VersionEntry)
    ensures
        e@ == entry_text(full@, opt_text(tag), opt_text(url)),
{
    let v = chars_of(full.as_str());
    let fv = before_first_exec(&v, '.');
    VersionEntry { full_version: full, feature_version: Some(string_of(&fv)), release_tag: tag, download_url: url }
}

proof fn lemma_views_sorted(r: Seq<VersionEntry>, items: Seq<VersionEntry>, keys: Seq<Seq<u32>>)
    requires
        is_stable_sort_of(r, items, keys, true),
        keys == entry_keys(entry_views(items)),
    ensures
        sorted_newest_first(entry_views(r), entry_views(items)),
{
    let p = choose|p: Seq<int>| #[trigger] is_stable_order(keys, p, true) && forall|i: int| 0 <= i < r.len() ==> r[i] == items[#[trigger] p[i]];
    assert(is_stable_order(keys, p, true));
    assert forall|i: int| 0 <= i < entry_views(r).len() implies entry_views(r)[i] == entry_views(items)[#[trigger] p[i]] by {
        assert(r[i] == items[p[i]]);
    }
}

/// Orders entries newest first (stably, by the numeric components of the
/// full version, descending).
pub fn sort_newest_first(entries: Vec<VersionEntry>) -> (r: Vec<VersionEntry>)
    ensures
        sorted_newest_first(entry_views(r@), entry_views(entries@)),
{
    let ghost items = entries@;
    let mut keys: Vec<Vec<u32>> = Vec::new();
    let mut i: usize = 0;
    while i < entries.len()
        invariant
            items == entries@,
            i <= entries@.len(),
            keys@.len() == i,
            forall|j: int| 0 <= j < i ==> (#[trigger] keys@[j])@ == dot_components(entries@[j].full_version@),
        decreases entries.len() - i,
    {
        keys.push(dot_components_of(entries[i].full_version.as_str()));
        i = i + 1;
    }
    assert(key_views(keys@) =~= entry_keys(entry_views(items)));
    let r = stable_sort_by_keys(entries, keys, true);
    proof {
        lemma_views_sorted(r@, items, key_views(keys@));
    }
    r
}

// ───────────────────────── flat version lists ─────────────────────────

/// Entries of a plain list of version strings, in list order.
pub open spec fn flat_entry_texts(vs: Seq<Seq<char>>) -> Seq<EntryText> {
    vs.map_values(|v: Seq<char>| entry_text(v, None, None))
}

/// Entries of a plain list of version strings (a JSON string array, or the
/// `version` fields of an object array), newest first.
pub fn entries_from_versions(versions: &[String]) -> (r: Vec<VersionEntry>)
    ensures
        sorted_newest_first(entry_views(r@), flat_entry_texts(texts_of(versions@))),
{
    let ghost want = flat_entry_texts(texts_of(versions@));
    let mut out: Vec<VersionEntry> = Vec::new();
    let mut i: usize = 0;
    while i < versions.len()
        invariant
            want == flat_entry_texts(texts_of(versions@)),
            i <= versions@.len(),
            entry_views(out@) == want.take(i as int),
        decreases versions.len() - i,
    {
        let ghost prev = entry_views(out@);
        assert(texts_of(versions@)[i as int] == versions@[i as int]@);
        out.push(make_entry(versions[i].clone(), None, None));
        assert(entry_views(out@) =~= prev.push(want[i as int]));
        assert(want.take(i + 1) =~= want.take(i as int).push(want[i as int]));
        i = i + 1;
    }
    assert(want.take(versions@.len() as int) =~= want);
    sort_newest_first(out)
}

/// The text with every leading `c` removed (`str::trim_start_matches` with a character).
pub open spec fn trim_leading(s: Seq<char>, c: char) -> Seq<char>
    decreases s.len(),
{
    if s.len() > 0 && s[0] == c {
        trim_leading(s.drop_first(), c)
    } else {
        s
    }
}

/// Entries of the nodejs.org listing: leading `v`s removed, in listing order.
pub open spec fn node_entry_texts(vs: Seq<Seq<char>>) -> Seq<EntryText> {
    vs.map_values(|v: Seq<char>| entry_text(trim_leading(v, 'v'), None, None))
}

proof fn lemma_trim_leading_skip(s: Seq<char>, c: char, k: int)
    requires
        0 <= k <= s.len(),
        forall|j: int| 0 <= j < k ==> s[j] == c,
        k == s.len() || s[k] != c,
    ensures
        trim_leading(s, c) == s.skip(k),
    decreases k,
{
    if k > 0 {
        let t = s.drop_first();
        assert forall|j: int| 0 <= j < k - 1 implies t[j] == c by {
            assert(t[j] == s[j + 1]);
        }
        if k < s.len() {
            assert(t[k - 1] == s[k]);
        }
        lemma_trim_leading_skip(t, c, k - 1);
        assert(t.skip(k - 1) =~= s.skip(k));
    } else {
        assert(s.skip(0) =~= s);
    }
}

/// The string without its leading `c`s.
fn trim_leading_string(s: &str, c: char) -> (r: String)
    ensures
        r@ == trim_leading(s@, c),
{
    let v = chars_of(s);
    let mut k: usize = 0;
    while k < v.len() && v[k] == c
        invariant
            k <= v@.len(),
            forall|j: int| 0 <= j < k ==> v@[j] == c,
        decreases v.len() - k,
    {
        k = k + 1;
    }
    proof {
        lemma_trim_leading_skip(v@, c, k as int);
    }
    let rest = sub_chars(&v, k, v.len());
    assert(rest@ =~= v@.skip(k as int));
    string_of(&rest)
}

/// Entries of the nodejs.org version listing (the `version` fields), in listing order.
pub fn node_entries(versions: &[String]) -> (r: Vec<VersionEntry>)
    ensures
        entry_views(r@) == node_entry_texts(texts_of(versions@)),
{
    let ghost want = node_entry_texts(texts_of(versions@));
    let mut out: Vec<VersionEntry> = Vec::new();
    let mut i: usize = 0;
    while i < versions.len()
        invariant
            want == node_entry_texts(texts_of(versions@)),
            i <= versions@.len(),
            entry_views(out@) == want.take(i as int),
        decreases versions.len() - i,
    {
        let ver = trim_leading_string(versions[i].as_str(), 'v');
        let ghost prev = entry_views(out@);
        assert(texts_of(versions@)[i as int] == versions@[i as int]@);
        out.push(make_entry(ver, None, None));
        assert(entry_views(out@) =~= prev.push(want[i as int]));
        assert(want.take(i + 1) =~= want.take(i as int).push(want[i as int]));
        i = i + 1;
    }
    assert(want.take(versions@.len() as int) =~= want);
    out
}

// ───────────────────────── Java (Adoptium) ─────────────────────────

/// The Adoptium release listing (first step of Java resolution).
pub struct AdoptiumReleases {
    pub available_releases: Vec<i32>,
    pub most_recent_lts_version: Option<i32>,
}

/// Entries of the Adoptium listing: each major version as full and feature version.
pub open spec fn java_entry_texts(ns: Seq<i32>) -> Seq<EntryText> {
    ns.map_values(|n: i32| (int_text(n as int), Some(int_text(n as int)), None::<Seq<char>>, None::<Seq<char>>))
}

/// Entries of the Adoptium release listing, in listing order.
pub fn java_entries(data: &AdoptiumReleases) -> (r: Vec<VersionEntry>)
    ensures
        entry_views(r@) == java_entry_texts(data.available_releases@),
{
    let ghost want = java_entry_texts(data.available_releases@);
    let mut out: Vec<VersionEntry> = Vec::new();
    let mut i: usize = 0;
    while i < data.available_releases.len()
        invariant
            want == java_entry_texts(data.available_releases@),
            i <= data.available_releases@.len(),
            entry_views(out@) == want.take(i as int),
        decreases data.available_releases.len() - i,
    {
        let n = data.available_releases[i];
        let ghost prev = entry_views(out@);
        out.push(VersionEntry { full_version: i32_string(n), feature_version: Some(i32_string(n)), release_tag: None, download_url: None });
        assert(entry_views(out@) =~= prev.push(want[i as int]));
        assert(want.take(i + 1) =~= want.take(i as int).push(want[i as int]));
        i = i + 1;
    }
    assert(want.take(data.available_releases@.len() as int) =~= want);
    out
}

/// Why a Java version could not be resolved.
pub enum JavaVersionError {
    /// The input is not an integer major version.
    NotANumber { input: String },
    /// Adoptium does not offer that major version.
    NotAvailable { input: String, available: Vec<i32> },
    /// Adoptium has no build of that version for the platform.
    NoRelease { major: i32, os: String, arch: String },
}

/// `[a, b, c]`: the debug text of a list of integers.
pub open spec fn int_list_text(ns: Seq<i32>) -> Seq<char>
    decreases ns.len(),
{
    if ns.len() == 0 {
        "[]"@
    } else {
        int_list_items(ns).push(']')
    }
}

/// `[a, b, c` without the closing bracket (non-empty list).
pub open spec fn int_list_items(ns: Seq<i32>) -> Seq<char>
    decreases ns.len(),
{
    if ns.len() <= 1 {
        seq!['['] + (if ns.len() == 1 { int_text(ns[0] as int) } else { Seq::<char>::empty() })
    } else {
        int_list_items(ns.drop_last()) + ", "@ + int_text(ns.last() as int)
    }
}

/// The debug text of a list of integers.
fn int_list_string(ns: &Vec<i32>) -> (s: String)
    ensures
        s@ == int_list_text(ns@),
{
    proof {
        reveal_strlit("[]");
        reveal_strlit(", ");
    }
    if ns.len() == 0 {
        return String::from_str("[]");
    }
    let mut s = String::new();
    push_char(&mut s, '[');
    let first = i32_string(ns[0]);
    append_str(&mut s, first.as_str());
    assert(s@ =~= int_list_items(ns@.take(1)));
    let mut i: usize = 1;
    while i < ns.len()
        invariant
            1 <= i <= ns@.len(),
            s@ == int_list_items(ns@.take(i as int)),
        decreases ns.len() - i,
    {
        let t = i32_string(ns[i]);
        append_str(&mut s, ", ");
        append_str(&mut s, t.as_str());
        assert(ns@.take(i + 1).drop_last() =~= ns@.take(i as int));
        i = i + 1;
    }
    assert(ns@.take(ns@.len() as int) =~= ns@);
    push_char(&mut s, ']');
    s
}

/// Text of a Java resolution error.
pub open spec fn java_error_text(e: JavaVersionError) -> Seq<char> {
    match e {
        JavaVersionError::NotANumber { input } => "[Java version resolve] '"@ + input@
            + "' is not a valid Java major version, use an integer like 21/17/11"@,
        JavaVersionError::NotAvailable { input, available } => "[Java version resolve] Java "@ + input@
            + " not available in Adoptium, available: "@ + int_list_text(available@),
        JavaVersionError::NoRelease { major, os, arch } => "[Java version resolve] no JDK release for Java "@
            + int_text(major as int) + " on "@ + os@ + " "@ + arch@
            + " \u{2014} Adoptium doesn't ship this version for this platform/arch (e.g. JDK 8 is x64-only on macOS); try another version like 17 or 21"@,
    }
}

impl JavaVersionError {
    /// The error message.
    pub fn message(&self) -> (m: String)
        ensures
            m@ == java_error_text(*self),
    {
        let mut m = String::new();
        match self {
            JavaVersionError::NotANumber { input } => {
                append_str(&mut m, "[Java version resolve] '");
                append_str(&mut m, input.as_str());
                append_str(&mut m, "' is not a valid Java major version, use an integer like 21/17/11");
            },
            JavaVersionError::NotAvailable { input, available } => {
                append_str(&mut m, "[Java version resolve] Java ");
                append_str(&mut m, input.as_str());
                append_str(&mut m, " not available in Adoptium, available: ");
                let list = int_list_string(available);
                append_str(&mut m, list.as_str());
            },
            JavaVersionError::NoRelease { major, os, arch } => {
                append_str(&mut m, "[Java version resolve] no JDK release for Java ");
                let n = i32_string(*major);
                append_str(&mut m, n.as_str());
                append_str(&mut m, " on ");
                append_str(&mut m, os.as_str());
                append_str(&mut m, " ");
                append_str(&mut m, arch.as_str());
                append_str(&mut m, " \u{2014} Adoptium doesn't ship this version for this platform/arch (e.g. JDK 8 is x64-only on macOS); try another version like 17 or 21");
            },
        }
        m
    }
}

/// Checks a Java major version against the Adoptium listing: it must parse
/// as an `i32` and be listed.
pub fn java_major(version_input: &str, data: &AdoptiumReleases) -> (r: Result<i32, JavaVersionError>)
    ensures
        match parse_i32_spec(version_input@) {
            None => r matches Err(JavaVersionError::NotANumber { input }) && input@ == version_input@,
            Some(n) => if data.available_releases@.contains(n) {
                r == Ok::<i32, JavaVersionError>(n)
            } else {
                r matches Err(JavaVersionError::NotAvailable { input, available }) && input@ == version_input@
                    && available@ == data.available_releases@
            },
        },
{
    let v = chars_of(version_input);
    match parse_i32(&v) {
        None => Err(JavaVersionError::NotANumber { input: String::from_str(version_input) }),
        Some(n) => {
            let mut i: usize = 0;
            while i < data.available_releases.len()
                invariant
                    parse_i32_spec(version_input@) == Some(n),
                    i <= data.available_releases@.len(),
                    forall|j: int| 0 <= j < i ==> data.available_releases@[j] != n,
                decreases data.available_releases.len() - i,
            {
                if data.available_releases[i] == n {
                    assert(data.available_releases@[i as int] == n);
                    return Ok(n);
                }
                i = i + 1;
            }
            Err(JavaVersionError::NotAvailable { input: String::from_str(version_input), available: data.available_releases.clone() })
        },
    }
}

/// The exact Java version from the assets query: the first asset's semver
/// before any `+` build suffix; the feature version is the user's input.
pub fn java_resolved_version(version_input: &str, major: i32, semvers: &[String], os: &str, arch: &str) -> (r: Result<ResolvedVersion, JavaVersionError>)
    ensures
        semvers@.len() == 0 <==> r is Err,
        r matches Err(e) ==> e matches JavaVersionError::NoRelease { major: m, os: o, arch: a } && m == major && o@ == os@ && a@ == arch@,
        r matches Ok(v) ==> v.full_version@ == before_first(semvers@[0]@, '+') && opt_text(v.feature_version) == Some(version_input@)
            && v.release_tag is None && v.download_url is None && !v.fuzzy_matched,
{
    if semvers.len() == 0 {
        return Err(JavaVersionError::NoRelease { major, os: String::from_str(os), arch: String::from_str(arch) });
    }
    let v = chars_of(semvers[0].as_str());
    let full = before_first_exec(&v, '+');
    Ok(ResolvedVersion {
        full_version: string_of(&full),
        feature_version: Some(String::from_str(version_input)),
        release_tag: None,
        download_url: None,
        fuzzy_matched: false,
    })
}

// ───────────────────────── Python ─────────────────────────

/// The tag of a release and the names of its assets.
pub struct ReleaseAssets {
    pub tag_name: String,
    pub asset_names: Vec<String>,
}

/// The version of a `cpython-{version}+{build}...` asset name.
pub open spec fn python_version_of(name: Seq<char>) -> Option<Seq<char>> {
    if starts_with(name, "cpython-"@) {
        Some(before_first(name.skip(8), '+'))
    } else {
        None
    }
}

/// Entries of one release's install-only assets for the platform (suffix).
pub open spec fn python_asset_texts(tag: Seq<char>, names: Seq<Seq<char>>, suffix: Seq<char>) -> Seq<EntryText>
    decreases names.len(),
{
    if names.len() == 0 {
        Seq::<EntryText>::empty()
    } else {
        let prev = python_asset_texts(tag, names.drop_last(), suffix);
        let n = names.last();
        if ends_with(n, suffix) {
            match python_version_of(n) {
                Some(v) => prev.push(entry_text(v, Some(tag), None)),
                None => prev,
            }
        } else {
            prev
        }
    }
}

/// Entries of all releases, in release and asset order.
pub open spec fn python_release_texts(rs: Seq<ReleaseAssets>, suffix: Seq<char>) -> Seq<EntryText>
    decreases rs.len(),
{
    if rs.len() == 0 {
        Seq::<EntryText>::empty()
    } else {
        python_release_texts(rs.drop_last(), suffix)
            + python_asset_texts(rs.last().tag_name@, texts_of(rs.last().asset_names@), suffix)
    }
}

/// The version of a CPython asset name (`cpython-3.12.1+2024...` → `3.12.1`).
pub fn extract_python_version(name: &str) -> (r: Option<String>)
    ensures
        opt_text(r) == python_version_of(name@),
{
    let v = chars_of(name);
    let pre = chars_of("cpython-");
    proof {
        reveal_strlit("cpython-");
    }
    if !starts_with_exec(&v, &pre) {
        return None;
    }
    let after = sub_chars(&v, 8, v.len());
    assert(after@ =~= v@.skip(8));
    let ver = before_first_exec(&after, '+');
    Some(string_of(&ver))
}

/// Entries of the python-build-standalone releases for a platform triple
/// (assets named `...{triple}-install_only.tar.gz`), newest first.
pub fn python_release_entries(releases: &[ReleaseAssets], platform_triple: &str) -> (r: Vec<VersionEntry>)
    ensures
        sorted_newest_first(entry_views(r@), python_release_texts(releases@, platform_triple@ + "-install_only.tar.gz"@)),
{
    let mut suffix = String::from_str(platform_triple);
    append_str(&mut suffix, "-install_only.tar.gz");
    let sv = chars_of(suffix.as_str());
    let ghost sfx = sv@;
    let mut out: Vec<VersionEntry> = Vec::new();
    let mut i: usize = 0;
    while i < releases.len()
        invariant
            sfx == platform_triple@ + "-install_only.tar.gz"@,
            sv@ == sfx,
            i <= releases@.len(),
            entry_views(out@) == python_release_texts(releases@.take(i as int), sfx),
        decreases releases.len() - i,
    {
        let rel = &releases[i];
        let ghost before = entry_views(out@);
        let ghost names = texts_of(rel.asset_names@);
        let mut k: usize = 0;
        while k < rel.asset_names.len()
            invariant
                sv@ == sfx,
                names == texts_of(rel.asset_names@),
                k <= rel.asset_names@.len(),
                entry_views(out@) == before + python_asset_texts(rel.tag_name@, names.take(k as int), sfx),
            decreases rel.asset_names.len() - k,
        {
            let name = &rel.asset_names[k];
            assert(names.take(k + 1).drop_last() =~= names.take(k as int));
            assert(names.take(k + 1).last() == name@);
            let nv = chars_of(name.as_str());
            if ends_with_exec(&nv, &sv) {
                match extract_python_version(name.as_str()) {
                    Some(ver) => {
                        let ghost prev = entry_views(out@);
                        out.push(make_entry(ver, Some(rel.tag_name.clone()), None));
                        assert(entry_views(out@) =~= prev.push(entry_views(out@).last()));
                    },
                    None => {},
                }
            }
            k = k + 1;
        }
        assert(names.take(names.len() as int) =~= names);
        assert(releases@.take(i + 1).drop_last() =~= releases@.take(i as int));
        assert(releases@.take(i + 1).last() == releases@[i as int]);
        i = i + 1;
    }
    assert(releases@.take(releases@.len() as int) =~= releases@);
    sort_newest_first(out)
}

/// The platform of the uv metadata records to keep.
pub struct UvTarget {
    pub os: String,
    pub arch: String,
    pub libc: String,
}

/// A discovery failure.
pub enum DiscoveryError {
    /// No uv metadata platform for this Rust target triple.
    UnsupportedPlatform { triple: String },
}

impl DiscoveryError {
    /// The error message.
    pub fn message(&self) -> (m: String)
        ensures
            match *self {
                DiscoveryError::UnsupportedPlatform { triple } =>
                    m@ == "[Python version sniff] unsupported platform '"@ + triple@ + "' for uv metadata"@,
            },
    {
        match self {
            DiscoveryError::UnsupportedPlatform { triple } => {
                let mut m = String::from_str("[Python version sniff] unsupported platform '");
                append_str(&mut m, triple.as_str());
                append_str(&mut m, "' for uv metadata");
                m
            },
        }
    }
}

/// The uv platform of a Rust target triple, if it is one uv publishes.
pub open spec fn uv_target_of(triple: Seq<char>) -> Option<(Seq<char>, Seq<char>, Seq<char>)> {
    if triple == "x86_64-pc-windows-msvc"@ {
        Some(("windows"@, "x86_64"@, "none"@))
    } else if triple == "aarch64-pc-windows-msvc"@ {
        Some(("windows"@, "aarch64"@, "none"@))
    } else if triple == "i686-pc-windows-msvc"@ {
        Some(("windows"@, "i686"@, "none"@))
    } else if triple == "x86_64-apple-darwin"@ {
        Some(("darwin"@, "x86_64"@, "none"@))
    } else if triple == "aarch64-apple-darwin"@ {
        Some(("darwin"@, "aarch64"@, "none"@))
    } else if triple == "x86_64-unknown-linux-gnu"@ {
        Some(("linux"@, "x86_64"@, "gnu"@))
    } else if triple == "aarch64-unknown-linux-gnu"@ {
        Some(("linux"@, "aarch64"@, "gnu"@))
    } else if triple == "x86_64-unknown-linux-musl"@ {
        Some(("linux"@, "x86_64"@, "musl"@))
    } else if triple == "aarch64-unknown-linux-musl"@ {
        Some(("linux"@, "aarch64"@, "musl"@))
    } else {
        None
    }
}

fn uv_target(os: &str, arch: &str, libc: &str) -> (t: UvTarget)
    ensures
        t.os@ == os@ && t.arch@ == arch@ && t.libc@ == libc@,
{
    UvTarget { os: String::from_str(os), arch: String::from_str(arch), libc: String::from_str(libc) }
}

/// Maps a Rust target triple to the uv metadata platform (os, arch, libc).
pub fn map_uv_target(platform_triple: &str) -> (r: Result<UvTarget, DiscoveryError>)
    ensures
        match uv_target_of(platform_triple@) {
            Some(t) => r matches Ok(u) && u.os@ == t.0 && u.arch@ == t.1 && u.libc@ == t.2,
            None => r matches Err(DiscoveryError::UnsupportedPlatform { triple }) && triple@ == platform_triple@,
        },
{
    if str_eq(platform_triple, "x86_64-pc-windows-msvc") {
        Ok(uv_target("windows", "x86_64", "none"))
    } else if str_eq(platform_triple, "aarch64-pc-windows-msvc") {
        Ok(uv_target("windows", "aarch64", "none"))
    } else if str_eq(platform_triple, "i686-pc-windows-msvc") {
        Ok(uv_target("windows", "i686", "none"))
    } else if str_eq(platform_triple, "x86_64-apple-darwin") {
        Ok(uv_target("darwin", "x86_64", "none"))
    } else if str_eq(platform_triple, "aarch64-apple-darwin") {
        Ok(uv_target("darwin", "aarch64", "none"))
    } else if str_eq(platform_triple, "x86_64-unknown-linux-gnu") {
        Ok(uv_target("linux", "x86_64", "gnu"))
    } else if str_eq(platform_triple, "aarch64-unknown-linux-gnu") {
        Ok(uv_target("linux", "aarch64", "gnu"))
    } else if str_eq(platform_triple, "x86_64-unknown-linux-musl") {
        Ok(uv_target("linux", "x86_64", "musl"))
    } else if str_eq(platform_triple, "aarch64-unknown-linux-musl") {
        Ok(uv_target("linux", "aarch64", "musl"))
    } else {
        Err(DiscoveryError::UnsupportedPlatform { triple: String::from_str(platform_triple) })
    }
}

/// One record of uv's download metadata, as read from the JSON: absent or
/// non-text fields are `None`; `variant_set` tells a `variant` that is present
/// and not null.
pub struct UvRecord {
    pub name: Option<String>,
    pub variant_set: bool,
    pub prerelease: Option<String>,
    pub os: Option<String>,
    pub libc: Option<String>,
    pub arch_family: Option<String>,
    pub major: Option<u64>,
    pub minor: Option<u64>,
    pub patch: Option<u64>,
    pub build: Option<String>,
    pub url: Option<String>,
}

/// The text of an optional string, empty when absent.
pub open spec fn text_or_empty(o: Option<String>) -> Seq<char> {
    match o {
        Some(s) => s@,
        None => Seq::<char>::empty(),
    }
}

/// A number as `u32` (absent: 0; the low 32 bits kept).
pub open spec fn low_u32(o: Option<u64>) -> nat {
    match o {
        Some(n) => (n as nat) % 0x1_0000_0000,
        None => 0,
    }
}

/// The entry of a uv record, if it is a stable standard CPython build for the platform.
pub open spec fn uv_entry_text(rec: UvRecord, t: UvTarget) -> Option<EntryText> {
    let major = low_u32(rec.major);
    let minor = low_u32(rec.minor);
    let patch = low_u32(rec.patch);
    let url = text_or_empty(rec.url);
    if text_or_empty(rec.name) != "cpython"@ || rec.variant_set || text_or_empty(rec.prerelease).len() > 0
        || text_or_empty(rec.os) != t.os@ || text_or_empty(rec.arch_family) != t.arch@
        || text_or_empty(rec.libc) != t.libc@ || major == 0 || url.len() == 0 {
        None
    } else {
        Some((decimal(major) + "."@ + decimal(minor) + "."@ + decimal(patch), Some(decimal(major)),
            Some(text_or_empty(rec.build)), Some(url)))
    }
}

/// A uv record gives an entry exactly when it is a stable standard CPython
/// build (named `cpython`, no variant, no prerelease) for the platform (its
/// os, architecture family and libc), with a major version other than 0 and
/// a download URL; the entry keeps the record's build tag and URL.
pub proof fn lemma_uv_entry_filter(rec: UvRecord, t: UvTarget)
    ensures
        uv_entry_text(rec, t) is Some <==> {
            &&& text_or_empty(rec.name) == "cpython"@
            &&& !rec.variant_set
            &&& text_or_empty(rec.prerelease).len() == 0
            &&& text_or_empty(rec.os) == t.os@
            &&& text_or_empty(rec.arch_family) == t.arch@
            &&& text_or_empty(rec.libc) == t.libc@
            &&& low_u32(rec.major) != 0
            &&& text_or_empty(rec.url).len() > 0
        },
        uv_entry_text(rec, t) matches Some(e) ==> e.2 == Some(text_or_empty(rec.build)) && e.3 == Some(text_or_empty(rec.url)),
{
}

/// A uv record that qualifies gives an entry whose version has exactly the
/// record's major, minor and patch numbers as its components, so each patch
/// release is a version of its own.
pub proof fn lemma_uv_entry_components(rec: UvRecord, t: UvTarget)
    ensures
        uv_entry_text(rec, t) matches Some(e) ==> dot_components(e.0) == seq![
            low_u32(rec.major) as u32,
            low_u32(rec.minor) as u32,
            low_u32(rec.patch) as u32,
        ],
{
    if uv_entry_text(rec, t) is Some {
        reveal_strlit(".");
        let (a, b, c) = (low_u32(rec.major), low_u32(rec.minor), low_u32(rec.patch));
        let (x, y, z) = (decimal(a), decimal(b), decimal(c));
        let s = x + "."@ + y + "."@ + z;
        assert(s =~= (x + seq!['.'] + y) + seq!['.'] + z);
        lemma_split_concat(x + seq!['.'] + y, z, '.');
        lemma_split_concat(x, y, '.');
        lemma_parse_decimal_usize(a as usize);
        lemma_parse_decimal_usize(b as usize);
        lemma_parse_decimal_usize(c as usize);
        lemma_split_no_sep(x, '.');
        lemma_split_no_sep(y, '.');
        lemma_split_no_sep(z, '.');
        lemma_parse_decimal_u32(a as u32);
        lemma_parse_decimal_u32(b as u32);
        lemma_parse_decimal_u32(c as u32);
        let p = split_on(s, '.');
        assert(p =~= seq![x, y, z]);
        assert(p.drop_last() =~= seq![x, y]);
        assert(p.drop_last().drop_last() =~= seq![x]);
        assert(p.drop_last().drop_last().drop_last() =~= Seq::<Seq<char>>::empty());
        assert(crate::version::fuzzy::parsed_pieces(Seq::<Seq<char>>::empty()) =~= Seq::<u32>::empty());
        assert(crate::version::fuzzy::parsed_pieces(seq![x]) =~= seq![a as u32]);
        assert(crate::version::fuzzy::parsed_pieces(seq![x, y]) =~= seq![a as u32, b as u32]) by {
            assert(seq![x, y].drop_last() =~= seq![x]);
        }
        assert(crate::version::fuzzy::parsed_pieces(seq![x, y, z]) =~= seq![a as u32, b as u32, c as u32]) by {
            assert(seq![x, y, z].drop_last() =~= seq![x, y]);
        }
        assert(dot_components(s) =~= seq![a as u32, b as u32, c as u32]);
    }
}

/// Entries of the uv records, in record order.
pub open spec fn uv_entry_texts(recs: Seq<UvRecord>, t: UvTarget) -> Seq<EntryText>
    decreases recs.len(),
{
    if recs.len() == 0 {
        Seq::<EntryText>::empty()
    } else {
        let prev = uv_entry_texts(recs.drop_last(), t);
        match uv_entry_text(recs.last(), t) {
            Some(e) => prev.push(e),
            None => prev,
        }
    }
}

fn opt_or_empty(o: &Option<String>) -> (r: String)
    ensures
        r@ == text_or_empty(*o),
{
    match o {
        Some(s) => s.clone(),
        None => String::new(),
    }
}

fn low_u32_exec(o: Option<u64>) -> (r: u32)
    ensures
        r as nat == low_u32(o),
{
    match o {
        Some(n) => (n % 0x1_0000_0000) as u32,
        None => 0,
    }
}

/// The entry of one uv record for the platform, if it qualifies.
fn uv_entry(rec: &UvRecord, t: &UvTarget) -> (r: Option<VersionEntry>)
    ensures
        match uv_entry_text(*rec, *t) {
            Some(e) => r matches Some(v) && v@ == e,
            None => r is None,
        },
{
    let name = opt_or_empty(&rec.name);
    if !str_eq(name.as_str(), "cpython") || rec.variant_set {
        return None;
    }
    let pre = opt_or_empty(&rec.prerelease);
    if pre.unicode_len() > 0 {
        return None;
    }
    let os = opt_or_empty(&rec.os);
    let arch = opt_or_empty(&rec.arch_family);
    let libc = opt_or_empty(&rec.libc);
    if !str_eq(os.as_str(), t.os.as_str()) || !str_eq(arch.as_str(), t.arch.as_str()) || !str_eq(libc.as_str(), t.libc.as_str()) {
        return None;
    }
    let major = low_u32_exec(rec.major);
    let minor = low_u32_exec(rec.minor);
    let patch = low_u32_exec(rec.patch);
    let url = opt_or_empty(&rec.url);
    if major == 0 || url.unicode_len() == 0 {
        return None;
    }
    let mut full = decimal_string(major as u64);
    push_char(&mut full, '.');
    let mi = decimal_string(minor as u64);
    append_str(&mut full, mi.as_str());
    push_char(&mut full, '.');
    let pa = decimal_string(patch as u64);
    append_str(&mut full, pa.as_str());
    proof {
        reveal_strlit(".");
    }
    let build = opt_or_empty(&rec.build);
    Some(VersionEntry { full_version: full, feature_version: Some(decimal_string(major as u64)), release_tag: Some(build), download_url: Some(url) })
}

/// Entries of uv's download metadata for the platform, newest first.
pub fn uv_entries(records: &[UvRecord], target: &UvTarget) -> (r: Vec<VersionEntry>)
    ensures
        sorted_newest_first(entry_views(r@), uv_entry_texts(records@, *target)),
{
    let mut out: Vec<VersionEntry> = Vec::new();
    let mut i: usize = 0;
    while i < records.len()
        invariant
            i <= records@.len(),
            entry_views(out@) == uv_entry_texts(records@.take(i as int), *target),
        decreases records.len() - i,
    {
        assert(records@.take(i + 1).drop_last() =~= records@.take(i as int));
        assert(records@.take(i + 1).last() == records@[i as int]);
        match uv_entry(&records[i], target) {
            Some(e) => {
                let ghost prev = entry_views(out@);
                out.push(e);
                assert(entry_views(out@) =~= prev.push(entry_views(out@).last()));
            },
            None => {},
        }
        i = i + 1;
    }
    assert(records@.take(records@.len() as int) =~= records@);
    sort_newest_first(out)
}

// ───────────────────────── matching ─────────────────────────

/// The position of the first text equal to `t` (`vs.len()` when none is).
pub open spec fn first_equal(vs: Seq<Seq<char>>, t: Seq<char>) -> int
    decreases vs.len(),
{
    if vs.len() == 0 {
        0
    } else if vs[0] == t {
        0
    } else {
        1 + first_equal(vs.drop_first(), t)
    }
}

pub proof fn lemma_first_equal(vs: Seq<Seq<char>>, t: Seq<char>, k: int)
    requires
        0 <= k <= vs.len(),
        forall|j: int| 0 <= j < k ==> vs[j] != t,
        k == vs.len() || vs[k] == t,
    ensures
        first_equal(vs, t) == k,
    decreases k,
{
    if k > 0 {
        let u = vs.drop_first();
        assert forall|j: int| 0 <= j < k - 1 implies u[j] != t by {
            assert(u[j] == vs[j + 1]);
        }
        if k < vs.len() {
            assert(u[k - 1] == vs[k]);
        }
        lemma_first_equal(u, t, k - 1);
    }
}

/// The full versions of the entries.
pub open spec fn full_versions(es: Seq<VersionEntry>) -> Seq<Seq<char>> {
    es.map_values(|e: VersionEntry| e.full_version@)
}

/// Matching succeeds, or its failure can be described (suggestion distances fit in `u64`).
pub open spec fn entry_match_defined(es: Seq<VersionEntry>, input: Seq<char>) -> bool {
    let vs = full_versions(es);
    let norm = strip_v_spec(input);
    any_flag(exact_flags(vs, norm)) || any_flag(prefix_flags(vs, norm)) || suggestion_defined(vs, input)
}

/// Resolves user input against the entries with `fuzzy_match_version_core`,
/// then fills the other fields from the first entry with the matched full
/// version; the feature version is the input itself on a fuzzy match.
pub fn fuzzy_match_version(entries: &[VersionEntry], version_input: &str) -> (r: Result<ResolvedVersion, NoMatchError>)
    requires
        entry_match_defined(entries@, version_input@),
    ensures
        ({
            let vs = full_versions(entries@);
            let norm = strip_v_spec(version_input@);
            let ex = exact_flags(vs, norm);
            let pf = prefix_flags(vs, norm);
            &&& (r is Ok <==> any_flag(ex) || any_flag(pf))
            &&& (r matches Ok(v) ==> {
                let e = entries@[first_equal(vs, v.full_version@)];
                &&& v.fuzzy_matched == !any_flag(ex)
                &&& (exists|i: int| is_newest(comps_of(vs), if any_flag(ex) { ex } else { pf }, i) && v.full_version@ == #[trigger] vs[i])
                &&& 0 <= first_equal(vs, v.full_version@) < vs.len()
                &&& opt_text(v.feature_version) == if v.fuzzy_matched { Some(version_input@) } else { opt_text(e.feature_version) }
                &&& opt_text(v.release_tag) == opt_text(e.release_tag)
                &&& opt_text(v.download_url) == opt_text(e.download_url)
            })
            &&& (r matches Err(e) ==> {
                &&& e.input@ == version_input@
                &&& (vs.len() == 0 <==> e.suggestion is None)
                &&& (e.suggestion matches Some(s) ==> exists|i: int| is_closest(version_input@, vs, i) && s@ == #[trigger] vs[i])
            })
        }),
{
    let ghost vs = full_versions(entries@);
    let mut versions: Vec<String> = Vec::new();
    let mut i: usize = 0;
    while i < entries.len()
        invariant
            vs == full_versions(entries@),
            i <= entries@.len(),
            texts_of(versions@) == vs.take(i as int),
        decreases entries.len() - i,
    {
        let ghost prev = texts_of(versions@);
        versions.push(entries[i].full_version.clone());
        assert(texts_of(versions@) =~= prev.push(vs[i as int]));
        assert(vs.take(i + 1) =~= vs.take(i as int).push(vs[i as int]));
        i = i + 1;
    }
    assert(vs.take(entries@.len() as int) =~= vs);
    let m = match fuzzy_match_version_core(versions.as_slice(), version_input) {
        Ok(m) => m,
        Err(e) => {
            return Err(e);
        },
    };
    let mut k: usize = 0;
    while k < entries.len() && !str_eq(entries[k].full_version.as_str(), m.full_version.as_str())
        invariant
            vs == full_versions(entries@),
            k <= entries@.len(),
            forall|j: int| 0 <= j < k ==> vs[j] != m.full_version@,
        decreases entries.len() - k,
    {
        k = k + 1;
    }
    proof {
        lemma_first_equal(vs, m.full_version@, k as int);
    }
    if k == entries.len() {
        proof {
            let i = choose|i: int| is_newest(comps_of(vs), if any_flag(exact_flags(vs, strip_v_spec(version_input@))) { exact_flags(vs, strip_v_spec(version_input@)) } else { prefix_flags(vs, strip_v_spec(version_input@)) }, i) && m.full_version@ == #[trigger] texts_of(versions@)[i];
            assert(vs[i] == m.full_version@);
        }
        return Err(NoMatchError { input: String::from_str(version_input), suggestion: None });
    }
    let e = &entries[k];
    let feature_version = if m.fuzzy_matched { Some(String::from_str(version_input)) } else { clone_opt(&e.feature_version) };
    Ok(ResolvedVersion {
        full_version: m.full_version,
        feature_version,
        release_tag: clone_opt(&e.release_tag),
        download_url: clone_opt(&e.download_url),
        fuzzy_matched: m.fuzzy_matched,
    })
}

/// The version-discovery strategy of one SDK: turns a source's response
/// body into version entries.
pub trait VersionDiscovery {
    /// The entries of a response body.
    fn parse_version_data(&self, body: &str) -> Result<Vec<VersionEntry>, String>;
}

} // verus!
