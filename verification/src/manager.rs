//! The SDK manager: the loaded configuration that the commands work on, the
//! check that an SDK is registered, and the release-list matching of the
//! install resolver (exact versions, or the newest of a major version).

use vstd::prelude::*;
use crate::config::{sdk_pos, SdkmConfig};
use crate::text::{append_str, chars_of, contains_char, starts_with, starts_with_exec, str_eq};
use crate::version::discovery::{clone_opt, entry_views, opt_text, EntryText, ResolvedVersion, VersionEntry};

verus! {

/// The SDK manager, holding the configuration (changes to the system
/// environment are made at the edge of the program).
pub struct SdkManager {
    pub config: SdkmConfig,
}

/// Why a request about an SDK cannot be served.
pub enum ManagerError {
    /// The SDK is not registered in the configuration.
    Unregistered { sdk: String },
}

impl ManagerError {
    /// The error message.
    pub fn message(&self) -> (m: String)
        ensures
            match *self {
                ManagerError::Unregistered { sdk } => m@ == "Unregistered SDK:`"@ + sdk@
                    + "` , please manually register it to the SDKM configuration!"@,
            },
    {
        match self {
            ManagerError::Unregistered { sdk } => {
                let mut m = String::from_str("Unregistered SDK:`");
                append_str(&mut m, sdk.as_str());
                append_str(&mut m, "` , please manually register it to the SDKM configuration!");
                m
            },
        }
    }
}

impl SdkManager {
    /// A manager over a loaded configuration.
    pub fn new(config: SdkmConfig) -> (m: SdkManager)
        ensures
            m.config == config,
    {
        SdkManager { config }
    }

    /// The name of a registered SDK; an error when the configuration has no
    /// SDK of that name.
    pub fn match_valid_sdk(&self, sdk_name: &str) -> (r: Result<String, ManagerError>)
        ensures
            sdk_pos(self.config@.sdks, sdk_name@) < self.config@.sdks.len() ==> (r matches Ok(s) && s@ == sdk_name@),
            sdk_pos(self.config@.sdks, sdk_name@) >= self.config@.sdks.len() ==> (r matches Err(
                ManagerError::Unregistered { sdk },
            ) && sdk@ == sdk_name@),
    {
        if self.config.sdk_index(sdk_name) < self.config.sdks.len() {
            Ok(String::from_str(sdk_name))
        } else {
            Err(ManagerError::Unregistered { sdk: String::from_str(sdk_name) })
        }
    }
}

/// Why a release list has no version for a request.
pub enum ReleaseMatchError {
    /// A version with a `.` of which no release is listed.
    NotFound { input: String },
    /// A major version of which no release is listed.
    NoMajorMatch { input: String },
}

impl ReleaseMatchError {
    /// The error message.
    pub fn message(&self) -> (m: String)
        ensures
            m@ == match *self {
                ReleaseMatchError::NotFound { input } => "version '"@ + input@ + "' not found in available releases"@,
                ReleaseMatchError::NoMajorMatch { input } => "no version matching '"@ + input@
                    + "', try a different major version"@,
            },
    {
        match self {
            ReleaseMatchError::NotFound { input } => {
                let mut m = String::from_str("version '");
                append_str(&mut m, input.as_str());
                append_str(&mut m, "' not found in available releases");
                m
            },
            ReleaseMatchError::NoMajorMatch { input } => {
                let mut m = String::from_str("no version matching '");
                append_str(&mut m, input.as_str());
                append_str(&mut m, "', try a different major version");
                m
            },
        }
    }
}

/// The position of the first entry whose version satisfies `exact`
/// (equal to `t`) or else starts with `t` (the length when none does).
pub open spec fn first_release(es: Seq<EntryText>, t: Seq<char>, exact: bool) -> int
    decreases es.len(),
{
    if es.len() == 0 {
        0
    } else if (exact && es[0].0 == t) || (!exact && starts_with(es[0].0, t)) {
        0
    } else {
        1 + first_release(es.drop_first(), t, exact)
    }
}

proof fn lemma_first_release(es: Seq<EntryText>, t: Seq<char>, exact: bool, k: int)
    requires
        0 <= k <= es.len(),
        forall|j: int| 0 <= j < k ==> !((exact && (#[trigger] es[j]).0 == t) || (!exact && starts_with(es[j].0, t))),
        k == es.len() || (exact && es[k].0 == t) || (!exact && starts_with(es[k].0, t)),
    ensures
        first_release(es, t, exact) == k,
    decreases k,
{
    if k > 0 {
        let u = es.drop_first();
        assert(!((exact && es[0].0 == t) || (!exact && starts_with(es[0].0, t))));
        assert forall|j: int| 0 <= j < k - 1 implies !((exact && (#[trigger] u[j]).0 == t) || (!exact && starts_with(u[j].0, t))) by {
            assert(u[j] == es[j + 1]);
        }
        if k < es.len() {
            assert(u[k - 1] == es[k]);
        }
        lemma_first_release(u, t, exact, k - 1);
    }
}

fn release_hit(e: &VersionEntry, exact: bool, t: &Vec<char>) -> (r: bool)
    ensures
        r == ((exact && e.full_version@ == t@) || (!exact && starts_with(e.full_version@, t@))),
{
    let fv = chars_of(e.full_version.as_str());
    if exact {
        crate::text::chars_eq(&fv, t)
    } else {
        starts_with_exec(&fv, t)
    }
}

/// The position of the first entry whose version is `t` (`exact`) or
/// starts with `t`.
fn first_release_index(entries: &Vec<VersionEntry>, t: &Vec<char>, exact: bool) -> (k: usize)
    ensures
        k as int == first_release(entry_views(entries@), t@, exact),
        k <= entries@.len(),
{
    let ghost es = entry_views(entries@);
    let mut k: usize = 0;
    while k < entries.len() && !release_hit(&entries[k], exact, t)
        invariant
            k <= entries@.len(),
            es == entry_views(entries@),
            forall|j: int| 0 <= j < k ==> !((exact && (#[trigger] es[j]).0 == t@) || (!exact && starts_with(es[j].0, t@))),
        decreases entries.len() - k,
    {
        assert(es[k as int] == entries@[k as int]@);
        k = k + 1;
    }
    if k < entries.len() {
        assert(es[k as int] == entries@[k as int]@);
    }
    proof {
        lemma_first_release(es, t@, exact, k as int);
    }
    k
}

/// Matches a request against a release list ordered newest first: an entry
/// equal to the request wins (`3.12.10`); otherwise the first (newest)
/// entry that starts with the request and a `.` is taken, flagged for
/// confirmation, with the request as its feature version (`3` → the newest
/// `3.x.x`, `3.12` → the newest `3.12.x`). When neither exists, a request
/// with a `.` is not found, and one without names no listed major version.
pub fn fuzzy_match_version(entries: &Vec<VersionEntry>, version_input: &str) -> (r: Result<ResolvedVersion, ReleaseMatchError>)
    ensures
        ({
            let es = entry_views(entries@);
            let ke = first_release(es, version_input@, true);
            let kp = first_release(es, version_input@.push('.'), false);
            if ke < es.len() {
                r matches Ok(v) && v.full_version@ == es[ke].0 && opt_text(v.release_tag) == es[ke].2
                    && opt_text(v.download_url) == es[ke].3 && !v.fuzzy_matched && opt_text(v.feature_version) == es[ke].1
            } else if kp < es.len() {
                r matches Ok(v) && v.full_version@ == es[kp].0 && opt_text(v.release_tag) == es[kp].2
                    && opt_text(v.download_url) == es[kp].3 && v.fuzzy_matched
                    && opt_text(v.feature_version) == Some(version_input@)
            } else if version_input@.contains('.') {
                r matches Err(ReleaseMatchError::NotFound { input }) && input@ == version_input@
            } else {
                r matches Err(ReleaseMatchError::NoMajorMatch { input }) && input@ == version_input@
            }
        }),
{
    let ghost es = entry_views(entries@);
    let v = chars_of(version_input);
    let ke = first_release_index(entries, &v, true);
    if ke < entries.len() {
        let e = &entries[ke];
        assert(es[ke as int] == e@);
        return Ok(ResolvedVersion {
            full_version: e.full_version.clone(),
            feature_version: clone_opt(&e.feature_version),
            release_tag: clone_opt(&e.release_tag),
            download_url: clone_opt(&e.download_url),
            fuzzy_matched: false,
        });
    }
    let mut t = String::from_str(version_input);
    crate::text::push_char(&mut t, '.');
    let tv = chars_of(t.as_str());
    let kp = first_release_index(entries, &tv, false);
    if kp < entries.len() {
        let e = &entries[kp];
        assert(es[kp as int] == e@);
        return Ok(ResolvedVersion {
            full_version: e.full_version.clone(),
            feature_version: Some(String::from_str(version_input)),
            release_tag: clone_opt(&e.release_tag),
            download_url: clone_opt(&e.download_url),
            fuzzy_matched: true,
        });
    }
    if contains_char(&v, '.') {
        Err(ReleaseMatchError::NotFound { input: String::from_str(version_input) })
    } else {
        Err(ReleaseMatchError::NoMajorMatch { input: String::from_str(version_input) })
    }
}

/// The install strategy of one SDK: how a version source's response is read.
pub trait SdkInstallStrategy {
    /// The entries of a response body.
    fn parse_version_data(&self, body: &str) -> Result<Vec<VersionEntry>, String>;
}

} // verus!
