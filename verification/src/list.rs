//! Version lists: the remote versions of an SDK marked with their local
//! install status, cut to a limit, and the sources they are fetched from.
//! Reading the store and fetching happen at the edge of the program.

use vstd::prelude::*;
use crate::config::string_texts;
use crate::text::{append_str, str_eq};
use crate::tui::{
    centered_title, column_width, column_width_of, display_width, index_string, index_text, pad_right, padded, push_spaces, spaces,
    texts, title_pad_of, unicode_width_of,
};
use crate::version::cache::VersionSource;
use crate::version::discovery::{clone_opt, entry_views, opt_text, EntryText, VersionEntry};

verus! {

/// Install status of a remote version.
#[derive(Clone, Copy, Debug, PartialEq, Eq, Structural)]
pub enum InstallStatus {
    /// Not installed locally.
    NotInstalled,
    /// Installed but not the active version.
    Installed,
    /// Installed and active.
    Active,
}

/// A remote version with its local install status.
pub struct RemoteVersionItem {
    pub full_version: String,
    pub feature_version: Option<String>,
    pub install_status: InstallStatus,
    /// The URL the list came from (shown to the user).
    pub source_url: String,
}

/// A remote version list cut to a limit.
pub struct RemoteVersionResult {
    pub items: Vec<RemoteVersionItem>,
    /// The number of versions before the cut.
    pub total_count: usize,
}

/// A registered SDK in the overview.
pub struct RegisteredSdkItem {
    /// The registered name.
    pub name: String,
    /// Whether a version of it is in the store.
    pub installed: bool,
    /// The active version, if any.
    pub current: Option<String>,
    /// Whether a version source is configured (remote lists possible).
    pub has_version_url: bool,
}

/// The text of an optional string slice.
pub open spec fn opt_str(o: Option<&str>) -> Option<Seq<char>> {
    match o {
        Some(s) => Some(s@),
        None => None,
    }
}

/// Active when it is the current version, else installed when it is among the
/// local versions, else not installed.
pub open spec fn install_status_spec(full: Seq<char>, local: Seq<Seq<char>>, current: Option<Seq<char>>) -> InstallStatus {
    if current == Some(full) {
        InstallStatus::Active
    } else if local.contains(full) {
        InstallStatus::Installed
    } else {
        InstallStatus::NotInstalled
    }
}

/// The install status of version `full`.
pub fn install_status(full: &str, local_versions: &Vec<String>, current: Option<&str>) -> (s: InstallStatus)
    ensures
        s == install_status_spec(full@, string_texts(local_versions@), opt_str(current)),
{
    let ghost local = string_texts(local_versions@);
    if let Some(c) = current {
        if str_eq(c, full) {
            return InstallStatus::Active;
        }
    }
    let mut i: usize = 0;
    while i < local_versions.len()
        invariant
            i <= local_versions@.len(),
            local == string_texts(local_versions@),
            opt_str(current) != Some(full@),
            forall|j: int| 0 <= j < i ==> local[j] != full@,
        decreases local_versions.len() - i,
    {
        if str_eq(local_versions[i].as_str(), full) {
            assert(local[i as int] == full@);
            return InstallStatus::Installed;
        }
        i = i + 1;
    }
    assert(!local.contains(full@));
    InstallStatus::NotInstalled
}

/// An item as text: full version, feature version, status, source URL.
pub type ItemText = (Seq<char>, Option<Seq<char>>, InstallStatus, Seq<char>);

impl View for RemoteVersionItem {
    type V = ItemText;

    open spec fn view(&self) -> ItemText {
        (self.full_version@, opt_text(self.feature_version), self.install_status, self.source_url@)
    }
}

/// The item shown for an entry.
pub open spec fn item_of(e: EntryText, local: Seq<Seq<char>>, current: Option<Seq<char>>, source: Seq<char>) -> ItemText {
    (e.0, e.1, install_status_spec(e.0, local, current), source)
}

/// The number of items kept of `n` under `limit`.
pub open spec fn kept(n: nat, limit: nat) -> nat {
    if n > limit { limit } else { n }
}

/// Marks each entry with its install status and keeps the first `limit`
/// of them; the count before the cut is returned alongside.
pub fn build_remote_items(
    entries: &Vec<VersionEntry>,
    local_versions: &Vec<String>,
    current: Option<&str>,
    source_url: &str,
    limit: u32,
) -> (r: RemoteVersionResult)
    ensures
        r.total_count == entries@.len(),
        r.items@.len() == kept(entries@.len(), limit as nat),
        forall|i: int| 0 <= i < r.items@.len() ==> (#[trigger] r.items@[i])@ == item_of(
            entry_views(entries@)[i],
            string_texts(local_versions@),
            opt_str(current),
            source_url@,
        ),
{
    let ghost es = entry_views(entries@);
    let n = entries.len();
    let keep: usize = if n > limit as usize { limit as usize } else { n };
    let mut items: Vec<RemoteVersionItem> = Vec::new();
    let mut i: usize = 0;
    while i < keep
        invariant
            keep <= entries@.len(),
            keep == kept(entries@.len(), limit as nat),
            i <= keep,
            es == entry_views(entries@),
            items@.len() == i,
            forall|j: int| 0 <= j < i ==> (#[trigger] items@[j])@ == item_of(
                es[j],
                string_texts(local_versions@),
                opt_str(current),
                source_url@,
            ),
        decreases keep - i,
    {
        let e = &entries[i];
        let status = install_status(e.full_version.as_str(), local_versions, current);
        let item = RemoteVersionItem {
            full_version: e.full_version.clone(),
            feature_version: clone_opt(&e.feature_version),
            install_status: status,
            source_url: String::from_str(source_url),
        };
        assert(es[i as int] == entries@[i as int]@);
        items.push(item);
        i = i + 1;
    }
    RemoteVersionResult { items, total_count: n }
}

/// Where a remote version list is fetched from.
pub struct RemoteFetchPlan {
    pub source: VersionSource,
    /// The URL shown to the user: the primary one, or `N/A` when it is empty.
    pub display_url: String,
}

/// Why a remote version list cannot be fetched.
pub enum ListError {
    /// Maven publishes no version list.
    MavenUnsupported,
    /// No version source is configured for the SDK.
    NoVersionSource { sdk: String },
    /// Zero was asked for as the number of versions to show.
    ZeroLimit,
    /// A remote list was asked for without naming an SDK.
    MissingSdk,
}

impl ListError {
    /// The error message.
    pub fn message(&self) -> (m: String)
        ensures
            m@ == match *self {
                ListError::MavenUnsupported => "Maven does not support remote version listing. Specify an exact version to install."@,
                ListError::NoVersionSource { sdk } => sdk@ + " has no version_url configured, cannot list remote versions"@,
                ListError::ZeroLimit => "limit must be >= 1"@,
                ListError::MissingSdk => "Please specify an SDK name, e.g.: sdkm list <sdk> -r"@,
            },
    {
        match self {
            ListError::MavenUnsupported => String::from_str(
                "Maven does not support remote version listing. Specify an exact version to install.",
            ),
            ListError::NoVersionSource { sdk } => {
                let mut m = sdk.clone();
                append_str(&mut m, " has no version_url configured, cannot list remote versions");
                m
            },
            ListError::ZeroLimit => String::from_str("limit must be >= 1"),
            ListError::MissingSdk => String::from_str("Please specify an SDK name, e.g.: sdkm list <sdk> -r"),
        }
    }
}

/// Whether some version source is configured: a non-empty primary URL or a
/// non-empty fallback.
pub open spec fn has_version_source(primary: Seq<char>, fallback: Option<Seq<char>>) -> bool {
    primary.len() > 0 || (fallback matches Some(f) && f.len() > 0)
}

/// Plans the fetch of a remote version list from the SDK's primary and
/// fallback version URLs: Maven has none; without any configured source the
/// list cannot be had.
pub fn plan_remote_fetch(sdk_name: &str, is_maven: bool, primary: &str, fallback: Option<&str>) -> (r: Result<
    RemoteFetchPlan,
    ListError,
>)
    ensures
        is_maven ==> r matches Err(ListError::MavenUnsupported),
        !is_maven && !has_version_source(primary@, opt_str(fallback)) ==> (r matches Err(
            ListError::NoVersionSource { sdk },
        ) && sdk@ == sdk_name@),
        !is_maven && has_version_source(primary@, opt_str(fallback)) ==> (r matches Ok(p) && p.source.primary_url@
            == primary@ && opt_text(p.source.secondary_url) == opt_str(fallback) && p.display_url@ == (if primary@.len()
            > 0 {
            primary@
        } else {
            "N/A"@
        })),
{
    if is_maven {
        return Err(ListError::MavenUnsupported);
    }
    let fallback_set = match fallback {
        Some(f) => f.unicode_len() > 0,
        None => false,
    };
    if primary.unicode_len() == 0 && !fallback_set {
        return Err(ListError::NoVersionSource { sdk: String::from_str(sdk_name) });
    }
    let display_url = if primary.unicode_len() > 0 { String::from_str(primary) } else { String::from_str("N/A") };
    let secondary_url = match fallback {
        Some(f) => Some(String::from_str(f)),
        None => None,
    };
    Ok(RemoteFetchPlan { source: VersionSource { primary_url: String::from_str(primary), secondary_url }, display_url })
}

/// Checks the arguments of a version listing: the limit must be positive, and
/// a remote listing needs an SDK name.
pub fn check_list_args(sdk_given: bool, remote: bool, limit: u32) -> (r: Result<(), ListError>)
    ensures
        limit == 0 ==> r matches Err(ListError::ZeroLimit),
        limit > 0 && remote && !sdk_given ==> r matches Err(ListError::MissingSdk),
        limit > 0 && !(remote && !sdk_given) ==> r is Ok,
{
    if limit == 0 {
        return Err(ListError::ZeroLimit);
    }
    if remote && !sdk_given {
        return Err(ListError::MissingSdk);
    }
    Ok(())
}

/// The overview item of a registered SDK: installed when its store
/// directory exists (`installed`, checked by the caller), remote listing
/// possible when a non-empty version URL is configured.
pub fn registered_item(sdk: &crate::config::SdkConfig, installed: bool) -> (r: RegisteredSdkItem)
    ensures
        r.name@ == sdk.name@,
        r.installed == installed,
        opt_text(r.current) == opt_text(sdk.current_version),
        r.has_version_url == (sdk.version_url matches Some(u) && u@.len() > 0),
{
    RegisteredSdkItem {
        name: sdk.name.clone(),
        installed,
        current: clone_opt(&sdk.current_version),
        has_version_url: match &sdk.version_url {
            Some(u) => u.unicode_len() > 0,
            None => false,
        },
    }
}

/// The installed versions of an SDK (its store's directory names), each
/// marked active when it is the configured current version.
pub fn local_versions(dir_names: &Vec<String>, current: Option<&str>) -> (r: Vec<(String, bool)>)
    ensures
        r@.len() == dir_names@.len(),
        forall|i: int| 0 <= i < r@.len() ==> (#[trigger] r@[i]).0@ == dir_names@[i]@ && r@[i].1 == (opt_str(current) == Some(dir_names@[i]@)),
{
    let mut r: Vec<(String, bool)> = Vec::new();
    let mut i: usize = 0;
    while i < dir_names.len()
        invariant
            i <= dir_names@.len(),
            r@.len() == i,
            forall|k: int| 0 <= k < i ==> (#[trigger] r@[k]).0@ == dir_names@[k]@ && r@[k].1 == (opt_str(current) == Some(dir_names@[k]@)),
        decreases dir_names.len() - i,
    {
        let active = match current {
            Some(c) => str_eq(c, dir_names[i].as_str()),
            None => false,
        };
        r.push((dir_names[i].clone(), active));
        i = i + 1;
    }
    r
}

/// The line of a remote version when the output is not a terminal: a mark
/// (active, installed, or blank) and the version.
pub fn remote_text_line(item: &RemoteVersionItem) -> (r: String)
    ensures
        r@ == match item.install_status {
            InstallStatus::Active => "✅"@,
            InstallStatus::Installed => "📦"@,
            InstallStatus::NotInstalled => " "@,
        } + " "@ + item.full_version@,
{
    let mut r = match item.install_status {
        InstallStatus::Active => String::from_str("✅"),
        InstallStatus::Installed => String::from_str("📦"),
        InstallStatus::NotInstalled => String::from_str(" "),
    };
    append_str(&mut r, " ");
    append_str(&mut r, item.full_version.as_str());
    r
}

// ───────────────────────── installed-SDKs table ─────────────────────────

/// The title of the installed-SDKs table.
pub open spec fn local_table_title() -> Seq<char> {
    "ℹ️  installed sdks"@
}

/// The names (first cells) of the table items.
pub open spec fn item_names(items: Seq<(String, String, String)>) -> Seq<Seq<char>> {
    items.map_values(|t: (String, String, String)| t.0@)
}

/// The current versions (second cells) of the table items.
pub open spec fn item_currents(items: Seq<(String, String, String)>) -> Seq<Seq<char>> {
    items.map_values(|t: (String, String, String)| t.1@)
}

/// The sizes (third cells) of the table items.
pub open spec fn item_sizes(items: Seq<(String, String, String)>) -> Seq<Seq<char>> {
    items.map_values(|t: (String, String, String)| t.2@)
}

/// One row: the active mark (blank when the current version is `N/A`), the
/// row number, then the name and current version padded to their columns and
/// the size.
pub open spec fn local_table_row(
    name: Seq<char>,
    cur: Seq<char>,
    size: Seq<char>,
    n: nat,
    name_w: nat,
    cur_w: nat,
) -> Seq<char> {
    (if cur == "N/A"@ { spaces(unicode_width_of("✅"@)) } else { "✅"@ }) + " "@ + index_text(n) + ". "@ + padded(
        name,
        name_w,
    ) + "  "@ + padded(cur, cur_w) + "  "@ + size
}

/// The lines of the installed-SDKs table (name, current version or `N/A`,
/// total size): the centred title, the header indented to the data columns,
/// and one numbered row per item. Each column is as wide as its widest cell
/// or header.
pub open spec fn local_table_lines(items: Seq<(String, String, String)>) -> Seq<Seq<char>> {
    let name_w = column_width_of(item_names(items), "sdk"@);
    let cur_w = column_width_of(item_currents(items), "current"@);
    let size_w = column_width_of(item_sizes(items), "total"@);
    seq![
        spaces(title_pad_of(local_table_title())) + local_table_title(),
        spaces(unicode_width_of("✅"@)) + spaces(5) + padded("sdk"@, name_w) + "  "@ + padded("current"@, cur_w)
            + "  "@ + padded("total"@, size_w),
    ] + Seq::new(
        items.len(),
        |i: int| local_table_row(items[i].0@, items[i].1@, items[i].2@, (i + 1) as nat, name_w, cur_w),
    )
}

/// One row of the installed-SDKs table.
fn local_row(item: &(String, String, String), n: u64, name_w: usize, cur_w: usize, active_w: usize) -> (r: String)
    requires
        active_w == unicode_width_of("✅"@),
    ensures
        r@ == local_table_row(item.0@, item.1@, item.2@, n as nat, name_w as nat, cur_w as nat),
{
    let mut r = if str_eq(item.1.as_str(), "N/A") {
        let mut x = String::new();
        push_spaces(&mut x, active_w);
        x
    } else {
        String::from_str("✅")
    };
    append_str(&mut r, " ");
    let idx = index_string(n);
    append_str(&mut r, idx.as_str());
    append_str(&mut r, ". ");
    let name = pad_right(item.0.as_str(), name_w);
    append_str(&mut r, name.as_str());
    append_str(&mut r, "  ");
    let cur = pad_right(item.1.as_str(), cur_w);
    append_str(&mut r, cur.as_str());
    append_str(&mut r, "  ");
    append_str(&mut r, item.2.as_str());
    r
}

/// The lines of the installed-SDKs table for items (name, current version or
/// `N/A`, total size text).
pub fn local_table(items: &Vec<(String, String, String)>) -> (r: Vec<String>)
    requires
        items@.len() < u64::MAX,
    ensures
        texts(r@) == local_table_lines(items@),
{
    let mut names: Vec<String> = Vec::new();
    let mut curs: Vec<String> = Vec::new();
    let mut sizes: Vec<String> = Vec::new();
    let mut i: usize = 0;
    while i < items.len()
        invariant
            i <= items@.len(),
            texts(names@) == item_names(items@.take(i as int)),
            texts(curs@) == item_currents(items@.take(i as int)),
            texts(sizes@) == item_sizes(items@.take(i as int)),
        decreases items.len() - i,
    {
        let ghost (pn, pc, ps) = (names@, curs@, sizes@);
        names.push(items[i].0.clone());
        curs.push(items[i].1.clone());
        sizes.push(items[i].2.clone());
        proof {
            let t = items@.take(i as int);
            let x = items@[i as int];
            assert(items@.take(i + 1) =~= t.push(x));
            assert(item_names(t.push(x)) =~= item_names(t).push(x.0@));
            assert(item_currents(t.push(x)) =~= item_currents(t).push(x.1@));
            assert(item_sizes(t.push(x)) =~= item_sizes(t).push(x.2@));
            assert(texts(names@) =~= texts(pn).push(x.0@));
            assert(texts(curs@) =~= texts(pc).push(x.1@));
            assert(texts(sizes@) =~= texts(ps).push(x.2@));
        }
        i = i + 1;
    }
    proof {
        assert(items@.take(items@.len() as int) =~= items@);
    }
    let name_w = column_width(&names, "sdk");
    let cur_w = column_width(&curs, "current");
    let size_w = column_width(&sizes, "total");
    let active_w = display_width("✅");
    let mut r: Vec<String> = Vec::new();
    r.push(centered_title("ℹ️  installed sdks"));
    let mut header = String::new();
    push_spaces(&mut header, active_w);
    push_spaces(&mut header, 5);
    let h0 = pad_right("sdk", name_w);
    append_str(&mut header, h0.as_str());
    append_str(&mut header, "  ");
    let h1 = pad_right("current", cur_w);
    append_str(&mut header, h1.as_str());
    append_str(&mut header, "  ");
    let h2 = pad_right("total", size_w);
    append_str(&mut header, h2.as_str());
    r.push(header);
    let ghost lines = local_table_lines(items@);
    let mut k: usize = 0;
    while k < items.len()
        invariant
            k <= items@.len(),
            items@.len() < u64::MAX,
            name_w == column_width_of(item_names(items@), "sdk"@),
            cur_w == column_width_of(item_currents(items@), "current"@),
            active_w == unicode_width_of("✅"@),
            lines == local_table_lines(items@),
            texts(r@) == lines.take(k + 2),
        decreases items.len() - k,
    {
        let row = local_row(&items[k], (k + 1) as u64, name_w, cur_w, active_w);
        let ghost pr = r@;
        r.push(row);
        proof {
            let x = items@[k as int];
            assert(lines[k + 2] == local_table_row(x.0@, x.1@, x.2@, (k + 1) as nat, name_w as nat, cur_w as nat));
            assert(texts(r@) =~= texts(pr).push(row@));
            assert(lines.take(k + 3) =~= lines.take(k + 2).push(lines[k + 2]));
        }
        k = k + 1;
    }
    proof {
        assert(lines.take(items@.len() as int + 2) =~= lines);
    }
    r
}

} // verus!
