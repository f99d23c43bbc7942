//! Install decisions: the version to install when no version source is
//! configured, the download URLs, the archive's file name, and the order of
//! the install steps (confirm, check, download with fallback, extract,
//! verify, clean up, switch). Downloading, extracting and moving files
//! happen at the edge of the program, one step at a time.

use vstd::prelude::*;
use crate::platform::{Target, TargetOs};
use crate::text::{
    append_str, before_first, before_first_exec, chars_of, contains_char, contains_seq, ends_with, ends_with_exec,
    replace_all, replace_all_exec, str_eq, string_of, sub_chars,
};
use crate::version::discovery::{opt_text, ResolvedVersion};

verus! {

/// Why an install stops.
pub enum InstallError {
    /// Without a version source only exact versions (with a `.`) can be installed.
    ExactVersionRequired { input: String },
    /// The user declined the version found by prefix.
    Cancelled,
    /// The download failed (from the fallback URL too, when there is one).
    DownloadFailed,
    /// Extraction produced no directory.
    ExtractionFailed,
    /// The installed directory did not pass verification (it was removed).
    VerificationFailed,
}

impl InstallError {
    /// The error message (a failed download is reported with the download's own error).
    pub fn message(&self) -> (m: String)
        ensures
            m@ == match *self {
                InstallError::ExactVersionRequired { input } => "exact version required, fuzzy '"@ + input@
                    + "' not supported (no version_url configured)"@,
                InstallError::Cancelled => "Installation cancelled by user"@,
                InstallError::DownloadFailed => "download failed"@,
                InstallError::ExtractionFailed => "Extraction failed: no output directory found"@,
                InstallError::VerificationFailed => "Installation verification failed. Rolled back."@,
            },
    {
        match self {
            InstallError::ExactVersionRequired { input } => {
                let mut m = String::from_str("exact version required, fuzzy '");
                append_str(&mut m, input.as_str());
                append_str(&mut m, "' not supported (no version_url configured)");
                m
            },
            InstallError::Cancelled => String::from_str("Installation cancelled by user"),
            InstallError::DownloadFailed => String::from_str("download failed"),
            InstallError::ExtractionFailed => String::from_str("Extraction failed: no output directory found"),
            InstallError::VerificationFailed => String::from_str("Installation verification failed. Rolled back."),
        }
    }
}

/// The version installed when the SDK has no version source: the input
/// itself, which must be exact (contain a `.`); its feature version is the
/// part before the first `.`.
pub fn resolve_without_source(input: &str) -> (r: Result<ResolvedVersion, InstallError>)
    ensures
        !input@.contains('.') ==> (r matches Err(InstallError::ExactVersionRequired { input: i }) && i@ == input@),
        input@.contains('.') ==> (r matches Ok(v) && v.full_version@ == input@ && opt_text(v.feature_version) == Some(
            before_first(input@, '.'),
        ) && v.release_tag is None && v.download_url is None && !v.fuzzy_matched),
{
    let v = chars_of(input);
    if !contains_char(&v, '.') {
        return Err(InstallError::ExactVersionRequired { input: String::from_str(input) });
    }
    let fv = before_first_exec(&v, '.');
    Ok(ResolvedVersion {
        full_version: String::from_str(input),
        feature_version: Some(string_of(&fv)),
        release_tag: None,
        download_url: None,
        fuzzy_matched: false,
    })
}

/// The text after the last occurrence of `c` (all of it when `c` does not
/// occur): what `s.rsplit(c).next()` returns.
pub open spec fn after_last(s: Seq<char>, c: char) -> Seq<char>
    decreases s.len(),
{
    if s.len() == 0 {
        s
    } else if s.last() == c {
        Seq::<char>::empty()
    } else {
        after_last(s.drop_last(), c).push(s.last())
    }
}

proof fn lemma_after_last(s: Seq<char>, c: char, k: int)
    requires
        0 <= k <= s.len(),
        k == 0 || s[k - 1] == c,
        forall|j: int| k <= j < s.len() ==> s[j] != c,
    ensures
        after_last(s, c) == s.subrange(k, s.len() as int),
    decreases s.len(),
{
    if s.len() == k {
        assert(s.subrange(k, k) =~= Seq::<char>::empty());
        if k == 0 {
            assert(s =~= Seq::<char>::empty());
        }
    } else {
        let t = s.drop_last();
        assert forall|j: int| k <= j < t.len() implies t[j] != c by {
            assert(t[j] == s[j]);
        }
        if k > 0 {
            assert(t[k - 1] == s[k - 1]);
        }
        lemma_after_last(t, c, k);
        assert(s.subrange(k, s.len() as int) =~= t.subrange(k, t.len() as int).push(s.last()));
    }
}

/// The text after the last `c`.
fn after_last_exec(v: &Vec<char>, c: char) -> (r: Vec<char>)
    ensures
        r@ == after_last(v@, c),
{
    let mut k: usize = v.len();
    while k > 0 && v[k - 1] != c
        invariant
            k <= v@.len(),
            forall|j: int| k <= j < v@.len() ==> v@[j] != c,
        decreases k,
    {
        k = k - 1;
    }
    proof {
        lemma_after_last(v@, c, k as int);
    }
    sub_chars(v, k, v.len())
}

/// The archive file name of a download URL: the last path segment (query
/// removed) with `%2B` decoded to `+`; a segment without `.` is no file
/// name, and `sdk.zip` (Windows) or `sdk.tar.gz` is used instead.
pub open spec fn archive_filename_spec(url: Seq<char>, target: Target) -> Seq<char> {
    let name = after_last(before_first(url, '?'), '/');
    if name.contains('.') {
        replace_all(name, "%2B"@, "+"@)
    } else if target.os == TargetOs::Windows {
        "sdk.zip"@
    } else {
        "sdk.tar.gz"@
    }
}

/// The archive file name of a download URL.
pub fn derive_archive_filename(url: &str, target: Target) -> (r: String)
    ensures
        r@ == archive_filename_spec(url@, target),
{
    let v = chars_of(url);
    let path = before_first_exec(&v, '?');
    let name = after_last_exec(&path, '/');
    if contains_char(&name, '.') {
        let pat = chars_of("%2B");
        let rep = chars_of("+");
        proof {
            reveal_strlit("%2B");
        }
        let out = replace_all_exec(&name, &pat, &rep);
        string_of(&out)
    } else if target.is_windows() {
        String::from_str("sdk.zip")
    } else {
        String::from_str("sdk.tar.gz")
    }
}

/// An archive is a zip file when its name ends in `.zip` (else a gzipped tar).
pub fn is_zip_archive(name: &str) -> (r: bool)
    ensures
        r == ends_with(name@, ".zip"@),
{
    let v = chars_of(name);
    let z = chars_of(".zip");
    ends_with_exec(&v, &z)
}

/// The URL downloaded first: the direct URL of the resolved version when it
/// has one, else the one rendered from the SDK's download template.
pub fn primary_download_url(resolved: &ResolvedVersion, rendered: &str) -> (r: String)
    ensures
        r@ == match resolved.download_url {
            Some(u) => u@,
            None => rendered@,
        },
{
    match &resolved.download_url {
        Some(u) => u.clone(),
        None => String::from_str(rendered),
    }
}

/// The fallback download template: the SDK's configured one, else the
/// built-in one.
pub fn fallback_template(configured: Option<&str>, builtin: Option<&str>) -> (r: Option<String>)
    ensures
        opt_text(r) == match configured {
            Some(c) => Some(c@),
            None => match builtin {
                Some(b) => Some(b@),
                None => None,
            },
        },
{
    match configured {
        Some(c) => Some(String::from_str(c)),
        None => match builtin {
            Some(b) => Some(String::from_str(b)),
            None => None,
        },
    }
}

/// The fallback download URL from its template: kept as it is when the
/// resolved version has a direct URL, else rendered (the template itself
/// when rendering failed).
pub fn fallback_download_url(template: &str, has_direct_url: bool, rendered: Option<&str>) -> (r: String)
    ensures
        r@ == if has_direct_url {
            template@
        } else {
            match rendered {
                Some(s) => s@,
                None => template@,
            }
        },
{
    if has_direct_url {
        return String::from_str(template);
    }
    match rendered {
        Some(s) => String::from_str(s),
        None => String::from_str(template),
    }
}

// ───────────────────────── install steps ─────────────────────────

/// What an install needs to know of the version being installed.
pub struct InstallPlan {
    pub primary_url: String,
    pub fallback_url: Option<String>,
    pub auto_switch: bool,
    pub target: Target,
}

/// Where an install stands.
#[derive(Clone, Copy, Debug, PartialEq, Eq, Structural)]
pub enum InstallStage {
    /// Waiting for the user to confirm a version found by prefix.
    Confirming,
    /// Waiting to learn whether the version directory exists.
    Checking,
    /// Downloading from the primary URL.
    Primary,
    /// Downloading from the fallback URL.
    Fallback,
    /// Extracting the archive (downloaded from the fallback URL when `fallback`).
    Extracting { fallback: bool },
    /// Verifying the installed directory.
    Verifying,
    /// Switching to the version.
    Switching,
    /// Nothing is left to do.
    Finished,
}

/// What the outside work of a step reported.
#[derive(Clone, Copy, Debug, PartialEq, Eq, Structural)]
pub enum InstallEvent {
    /// The user answered the confirmation.
    Confirmed(bool),
    /// Whether the version directory exists.
    Exists(bool),
    /// Whether the download succeeded.
    Downloaded(bool),
    /// Whether extraction produced a directory.
    Extracted(bool),
    /// Whether the installed directory passed verification.
    Verified(bool),
    /// The switch was made.
    Switched,
}

/// The outside work to do next.
pub enum InstallAction {
    /// Ask the user to confirm the version.
    AskConfirm,
    /// Look whether the version directory exists.
    CheckInstalled,
    /// Download from this URL.
    Download { url: String },
    /// Extract the archive with this file name (a zip file when `zip`), and
    /// move the result into the store.
    Extract { archive: String, zip: bool },
    /// Verify the installed directory.
    Verify,
    /// Remove the temporary files, then switch to the version.
    CleanUpAndSwitch,
    /// Switch to the version (it was already installed).
    Switch,
    /// Remove the temporary files; the install is complete.
    CleanUpAndFinish,
    /// Nothing more: the version was already installed.
    Finish,
    /// Stop with this error (removing what was left behind).
    Fail(InstallError),
}

/// The event that each stage waits for.
pub open spec fn expects(stage: InstallStage, ev: InstallEvent) -> bool {
    match stage {
        InstallStage::Confirming => ev is Confirmed,
        InstallStage::Checking => ev is Exists,
        InstallStage::Primary => ev is Downloaded,
        InstallStage::Fallback => ev is Downloaded,
        InstallStage::Extracting { .. } => ev is Extracted,
        InstallStage::Verifying => ev is Verified,
        InstallStage::Switching => ev is Switched,
        InstallStage::Finished => false,
    }
}

/// The first step: a version found by prefix is confirmed first.
pub fn start_install(fuzzy_matched: bool) -> (r: (InstallStage, InstallAction))
    ensures
        fuzzy_matched ==> r.0 == InstallStage::Confirming && r.1 is AskConfirm,
        !fuzzy_matched ==> r.0 == InstallStage::Checking && r.1 is CheckInstalled,
{
    if fuzzy_matched {
        (InstallStage::Confirming, InstallAction::AskConfirm)
    } else {
        (InstallStage::Checking, InstallAction::CheckInstalled)
    }
}

/// The most steps left from a stage: every step moves to a later stage, so
/// an install ends after at most seven steps and never repeats a stage.
pub open spec fn steps_left(stage: InstallStage) -> nat {
    match stage {
        InstallStage::Confirming => 7,
        InstallStage::Checking => 6,
        InstallStage::Primary => 5,
        InstallStage::Fallback => 4,
        InstallStage::Extracting { .. } => 3,
        InstallStage::Verifying => 2,
        InstallStage::Switching => 1,
        InstallStage::Finished => 0,
    }
}


/// The step after the outside work of `stage` reported `ev`:
/// a declined confirmation cancels; an existing version is only switched to
/// (when asked); a failed primary download goes to the fallback URL when
/// there is one; the archive is named after the URL it came from, and is a
/// zip file when the primary URL's archive is; a failed extraction or
/// verification fails the install; after verification the temporary files
/// go, and the version is switched to when asked.
pub fn next_install_step(plan: &InstallPlan, stage: InstallStage, ev: InstallEvent) -> (r: (InstallStage, InstallAction))
    requires
        expects(stage, ev),
    ensures
        steps_left(r.0) < steps_left(stage),
        ({
            let zip = ends_with(archive_filename_spec(plan.primary_url@, plan.target), ".zip"@);
            match (stage, ev) {
                (InstallStage::Confirming, InstallEvent::Confirmed(yes)) => if yes {
                    r.0 == InstallStage::Checking && r.1 is CheckInstalled
                } else {
                    r.0 == InstallStage::Finished && r.1 matches InstallAction::Fail(InstallError::Cancelled)
                },
                (InstallStage::Checking, InstallEvent::Exists(exists)) => if !exists {
                    r.0 == InstallStage::Primary && (r.1 matches InstallAction::Download { url } && url@ == plan.primary_url@)
                } else if plan.auto_switch {
                    r.0 == InstallStage::Switching && r.1 is Switch
                } else {
                    r.0 == InstallStage::Finished && r.1 is Finish
                },
                (InstallStage::Primary, InstallEvent::Downloaded(ok)) => if ok {
                    r.0 == InstallStage::Extracting { fallback: false } && (r.1 matches InstallAction::Extract { archive, zip: z }
                        && archive@ == archive_filename_spec(plan.primary_url@, plan.target) && z == zip)
                } else {
                    match plan.fallback_url {
                        Some(f) => r.0 == InstallStage::Fallback && (r.1 matches InstallAction::Download { url } && url@ == f@),
                        None => r.0 == InstallStage::Finished && r.1 matches InstallAction::Fail(InstallError::DownloadFailed),
                    }
                },
                (InstallStage::Fallback, InstallEvent::Downloaded(ok)) => if ok {
                    plan.fallback_url matches Some(f) ==> r.0 == InstallStage::Extracting { fallback: true } && (r.1 matches InstallAction::Extract { archive, zip: z }
                        && archive@ == archive_filename_spec(f@, plan.target) && z == zip)
                } else {
                    r.0 == InstallStage::Finished && r.1 matches InstallAction::Fail(InstallError::DownloadFailed)
                },
                (InstallStage::Extracting { .. }, InstallEvent::Extracted(ok)) => if ok {
                    r.0 == InstallStage::Verifying && r.1 is Verify
                } else {
                    r.0 == InstallStage::Finished && r.1 matches InstallAction::Fail(InstallError::ExtractionFailed)
                },
                (InstallStage::Verifying, InstallEvent::Verified(ok)) => if !ok {
                    r.0 == InstallStage::Finished && r.1 matches InstallAction::Fail(InstallError::VerificationFailed)
                } else if plan.auto_switch {
                    r.0 == InstallStage::Switching && r.1 is CleanUpAndSwitch
                } else {
                    r.0 == InstallStage::Finished && r.1 is CleanUpAndFinish
                },
                (InstallStage::Switching, InstallEvent::Switched) => r.0 == InstallStage::Finished && r.1 is Finish,
                _ => true,
            }
        }),
{
    match (stage, ev) {
        (InstallStage::Confirming, InstallEvent::Confirmed(yes)) => {
            if yes {
                (InstallStage::Checking, InstallAction::CheckInstalled)
            } else {
                (InstallStage::Finished, InstallAction::Fail(InstallError::Cancelled))
            }
        },
        (InstallStage::Checking, InstallEvent::Exists(exists)) => {
            if !exists {
                (InstallStage::Primary, InstallAction::Download { url: plan.primary_url.clone() })
            } else if plan.auto_switch {
                (InstallStage::Switching, InstallAction::Switch)
            } else {
                (InstallStage::Finished, InstallAction::Finish)
            }
        },
        (InstallStage::Primary, InstallEvent::Downloaded(ok)) => {
            if ok {
                let archive = derive_archive_filename(plan.primary_url.as_str(), plan.target);
                let zip = is_zip_archive(archive.as_str());
                (InstallStage::Extracting { fallback: false }, InstallAction::Extract { archive, zip })
            } else {
                match &plan.fallback_url {
                    Some(f) => (InstallStage::Fallback, InstallAction::Download { url: f.clone() }),
                    None => (InstallStage::Finished, InstallAction::Fail(InstallError::DownloadFailed)),
                }
            }
        },
        (InstallStage::Fallback, InstallEvent::Downloaded(ok)) => {
            if ok {
                let primary = derive_archive_filename(plan.primary_url.as_str(), plan.target);
                let zip = is_zip_archive(primary.as_str());
                let archive = match &plan.fallback_url {
                    Some(f) => derive_archive_filename(f.as_str(), plan.target),
                    None => primary,
                };
                (InstallStage::Extracting { fallback: true }, InstallAction::Extract { archive, zip })
            } else {
                (InstallStage::Finished, InstallAction::Fail(InstallError::DownloadFailed))
            }
        },
        (InstallStage::Extracting { .. }, InstallEvent::Extracted(ok)) => {
            if ok {
                (InstallStage::Verifying, InstallAction::Verify)
            } else {
                (InstallStage::Finished, InstallAction::Fail(InstallError::ExtractionFailed))
            }
        },
        (InstallStage::Verifying, InstallEvent::Verified(ok)) => {
            if !ok {
                (InstallStage::Finished, InstallAction::Fail(InstallError::VerificationFailed))
            } else if plan.auto_switch {
                (InstallStage::Switching, InstallAction::CleanUpAndSwitch)
            } else {
                (InstallStage::Finished, InstallAction::CleanUpAndFinish)
            }
        },
        _ => (InstallStage::Finished, InstallAction::Finish),
    }
}

// ───────────────────────── template styles ─────────────────────────

/// How operating systems are named in a download template.
#[derive(Clone, Copy, Debug, PartialEq, Eq, Structural)]
pub enum OsStyle {
    Default,
    Short,
    Adoptium,
}

/// How architectures are named in a download template.
#[derive(Clone, Copy, Debug, PartialEq, Eq, Structural)]
pub enum ArchStyle {
    Default,
    Adoptium,
    Python,
    Go,
}

/// An unknown style name in an SDK's configuration.
pub enum StyleError {
    InvalidOsStyle { value: String },
    InvalidArchStyle { value: String },
}

impl StyleError {
    /// The error message.
    pub fn message(&self) -> (m: String)
        ensures
            m@ == match *self {
                StyleError::InvalidOsStyle { value } => "Invalid os_style '"@ + value@
                    + "'. Valid values: default, short, adoptium"@,
                StyleError::InvalidArchStyle { value } => "Invalid arch_style '"@ + value@
                    + "'. Valid values: default, adoptium, python, go"@,
            },
    {
        match self {
            StyleError::InvalidOsStyle { value } => {
                let mut m = String::from_str("Invalid os_style '");
                append_str(&mut m, value.as_str());
                append_str(&mut m, "'. Valid values: default, short, adoptium");
                m
            },
            StyleError::InvalidArchStyle { value } => {
                let mut m = String::from_str("Invalid arch_style '");
                append_str(&mut m, value.as_str());
                append_str(&mut m, "'. Valid values: default, adoptium, python, go");
                m
            },
        }
    }
}

/// The os style a configured name stands for.
pub open spec fn os_style_of(s: Seq<char>) -> Option<OsStyle> {
    if s == "default"@ {
        Some(OsStyle::Default)
    } else if s == "short"@ {
        Some(OsStyle::Short)
    } else if s == "adoptium"@ {
        Some(OsStyle::Adoptium)
    } else {
        None
    }
}

/// The arch style a configured name stands for.
pub open spec fn arch_style_of(s: Seq<char>) -> Option<ArchStyle> {
    if s == "default"@ {
        Some(ArchStyle::Default)
    } else if s == "adoptium"@ {
        Some(ArchStyle::Adoptium)
    } else if s == "python"@ {
        Some(ArchStyle::Python)
    } else if s == "go"@ {
        Some(ArchStyle::Go)
    } else {
        None
    }
}

/// Parses a configured os style (`default`, `short`, `adoptium`).
pub fn parse_os_style(s: &str) -> (r: Result<OsStyle, StyleError>)
    ensures
        match os_style_of(s@) {
            Some(st) => r == Ok::<OsStyle, StyleError>(st),
            None => r matches Err(StyleError::InvalidOsStyle { value }) && value@ == s@,
        },
{
    if str_eq(s, "default") {
        Ok(OsStyle::Default)
    } else if str_eq(s, "short") {
        Ok(OsStyle::Short)
    } else if str_eq(s, "adoptium") {
        Ok(OsStyle::Adoptium)
    } else {
        Err(StyleError::InvalidOsStyle { value: String::from_str(s) })
    }
}

/// Parses a configured arch style (`default`, `adoptium`, `python`, `go`).
pub fn parse_arch_style(s: &str) -> (r: Result<ArchStyle, StyleError>)
    ensures
        match arch_style_of(s@) {
            Some(st) => r == Ok::<ArchStyle, StyleError>(st),
            None => r matches Err(StyleError::InvalidArchStyle { value }) && value@ == s@,
        },
{
    if str_eq(s, "default") {
        Ok(ArchStyle::Default)
    } else if str_eq(s, "adoptium") {
        Ok(ArchStyle::Adoptium)
    } else if str_eq(s, "python") {
        Ok(ArchStyle::Python)
    } else if str_eq(s, "go") {
        Ok(ArchStyle::Go)
    } else {
        Err(StyleError::InvalidArchStyle { value: String::from_str(s) })
    }
}

// ───────────────────────── download templates ─────────────────────────

/// The SDK a download template is rendered for: a built-in one, or a custom
/// one with the os and arch styles of its configuration.
#[derive(Clone, Copy, Debug, PartialEq, Eq, Structural)]
pub enum TemplateSdk {
    Java,
    Node,
    Python,
    Maven,
    Go,
    Custom { os: OsStyle, arch: ArchStyle },
}

/// The built-in SDK of a name, if it is one.
pub open spec fn builtin_template_sdk(name: Seq<char>) -> Option<TemplateSdk> {
    if name == "java"@ {
        Some(TemplateSdk::Java)
    } else if name == "node"@ {
        Some(TemplateSdk::Node)
    } else if name == "python"@ {
        Some(TemplateSdk::Python)
    } else if name == "maven"@ {
        Some(TemplateSdk::Maven)
    } else if name == "go"@ {
        Some(TemplateSdk::Go)
    } else {
        None
    }
}

/// A configured os style that does not parse.
pub open spec fn bad_os_style(os_style: Option<&str>) -> bool {
    os_style is Some && os_style_of(os_style->0@) is None
}

/// A configured arch style that does not parse.
pub open spec fn bad_arch_style(arch_style: Option<&str>) -> bool {
    arch_style is Some && arch_style_of(arch_style->0@) is None
}

/// The os style of a custom SDK: the configured one, else `Default`.
pub open spec fn custom_os_style(os_style: Option<&str>) -> OsStyle {
    match os_style {
        Some(o) => os_style_of(o@)->0,
        None => OsStyle::Default,
    }
}

/// The arch style of a custom SDK: the configured one, else `Default`.
pub open spec fn custom_arch_style(arch_style: Option<&str>) -> ArchStyle {
    match arch_style {
        Some(a) => arch_style_of(a@)->0,
        None => ArchStyle::Default,
    }
}

/// The template SDK of an SDK name. The styles are read for custom SDKs only;
/// an unknown os style is reported before an unknown arch style.
pub fn template_sdk(name: &str, os_style: Option<&str>, arch_style: Option<&str>) -> (r: Result<TemplateSdk, StyleError>)
    ensures
        match builtin_template_sdk(name@) {
            Some(b) => r == Ok::<TemplateSdk, StyleError>(b),
            None => if bad_os_style(os_style) {
                r matches Err(StyleError::InvalidOsStyle { value }) && value@ == os_style->0@
            } else if bad_arch_style(arch_style) {
                r matches Err(StyleError::InvalidArchStyle { value }) && value@ == arch_style->0@
            } else {
                r == Ok::<TemplateSdk, StyleError>(
                    TemplateSdk::Custom { os: custom_os_style(os_style), arch: custom_arch_style(arch_style) },
                )
            },
        },
{
    if str_eq(name, "java") {
        return Ok(TemplateSdk::Java);
    } else if str_eq(name, "node") {
        return Ok(TemplateSdk::Node);
    } else if str_eq(name, "python") {
        return Ok(TemplateSdk::Python);
    } else if str_eq(name, "maven") {
        return Ok(TemplateSdk::Maven);
    } else if str_eq(name, "go") {
        return Ok(TemplateSdk::Go);
    }
    let os = match os_style {
        Some(o) => match parse_os_style(o) {
            Ok(st) => st,
            Err(e) => return Err(e),
        },
        None => OsStyle::Default,
    };
    let arch = match arch_style {
        Some(a) => match parse_arch_style(a) {
            Ok(st) => st,
            Err(e) => return Err(e),
        },
        None => ArchStyle::Default,
    };
    Ok(TemplateSdk::Custom { os, arch })
}

/// A variable set on the template renderer. The os, arch, archive extension
/// and platform values are those of the host in the given style.
pub enum TemplateVar {
    Os(OsStyle),
    Arch(ArchStyle),
    OsExt,
    Platform,
    Version(String),
    FeatureVersion(String),
    ReleaseTag(String),
}

/// A template variable with its text as a sequence of characters.
pub enum TemplateVarView {
    Os(OsStyle),
    Arch(ArchStyle),
    OsExt,
    Platform,
    Version(Seq<char>),
    FeatureVersion(Seq<char>),
    ReleaseTag(Seq<char>),
}

impl View for TemplateVar {
    type V = TemplateVarView;

    open spec fn view(&self) -> TemplateVarView {
        match *self {
            TemplateVar::Os(o) => TemplateVarView::Os(o),
            TemplateVar::Arch(a) => TemplateVarView::Arch(a),
            TemplateVar::OsExt => TemplateVarView::OsExt,
            TemplateVar::Platform => TemplateVarView::Platform,
            TemplateVar::Version(v) => TemplateVarView::Version(v@),
            TemplateVar::FeatureVersion(v) => TemplateVarView::FeatureVersion(v@),
            TemplateVar::ReleaseTag(v) => TemplateVarView::ReleaseTag(v@),
        }
    }
}

/// How the download URL of a resolved version is obtained.
pub enum DownloadPlan {
    /// The direct URL of the version source.
    Direct(String),
    /// The template rendered with these variables.
    Render(Vec<TemplateVar>),
}

/// The variables each SDK renders its template with: Java with Adoptium
/// names and its feature version, Node with short os names and a `v` before
/// the version, Python with the version, the platform triple and the release
/// tag, Maven with the extension and version, Go with Go arch names, and a
/// custom SDK with its configured styles.
pub open spec fn template_vars(
    sdk: TemplateSdk,
    full: Seq<char>,
    feature: Option<Seq<char>>,
    tag: Option<Seq<char>>,
) -> Seq<TemplateVarView> {
    match sdk {
        TemplateSdk::Java => seq![
            TemplateVarView::Os(OsStyle::Adoptium),
            TemplateVarView::Arch(ArchStyle::Adoptium),
            TemplateVarView::OsExt,
        ] + match feature {
            Some(f) => seq![TemplateVarView::FeatureVersion(f)],
            None => Seq::empty(),
        },
        TemplateSdk::Node => seq![
            TemplateVarView::Os(OsStyle::Short),
            TemplateVarView::Arch(ArchStyle::Default),
            TemplateVarView::OsExt,
            TemplateVarView::Version("v"@ + full),
        ],
        TemplateSdk::Python => seq![TemplateVarView::Version(full), TemplateVarView::Platform] + match tag {
            Some(t) => seq![TemplateVarView::ReleaseTag(t)],
            None => Seq::empty(),
        },
        TemplateSdk::Maven => seq![TemplateVarView::OsExt, TemplateVarView::Version(full)],
        TemplateSdk::Go => seq![
            TemplateVarView::Os(OsStyle::Default),
            TemplateVarView::Arch(ArchStyle::Go),
            TemplateVarView::OsExt,
            TemplateVarView::Version(full),
        ],
        TemplateSdk::Custom { os, arch } => seq![
            TemplateVarView::Os(os),
            TemplateVarView::Arch(arch),
            TemplateVarView::OsExt,
            TemplateVarView::Version(full),
        ],
    }
}

/// How to get the download URL of a resolved version: Python uses the direct
/// URL of its version source when there is one; otherwise the template is
/// rendered with the variables of the SDK.
pub fn download_plan(sdk: TemplateSdk, resolved: &ResolvedVersion) -> (r: DownloadPlan)
    ensures
        match (sdk, resolved.download_url) {
            (TemplateSdk::Python, Some(u)) => r matches DownloadPlan::Direct(d) && d@ == u@,
            _ => r matches DownloadPlan::Render(vars) && vars@.map_values(|v: TemplateVar| v@) == template_vars(
                sdk,
                resolved.full_version@,
                opt_text(resolved.feature_version),
                opt_text(resolved.release_tag),
            ),
        },
{
    let full = resolved.full_version.clone();
    let mut vars: Vec<TemplateVar> = Vec::new();
    match sdk {
        TemplateSdk::Java => {
            vars.push(TemplateVar::Os(OsStyle::Adoptium));
            vars.push(TemplateVar::Arch(ArchStyle::Adoptium));
            vars.push(TemplateVar::OsExt);
            if let Some(f) = &resolved.feature_version {
                vars.push(TemplateVar::FeatureVersion(f.clone()));
            }
        },
        TemplateSdk::Node => {
            let mut v = String::from_str("v");
            append_str(&mut v, full.as_str());
            vars.push(TemplateVar::Os(OsStyle::Short));
            vars.push(TemplateVar::Arch(ArchStyle::Default));
            vars.push(TemplateVar::OsExt);
            vars.push(TemplateVar::Version(v));
        },
        TemplateSdk::Python => {
            if let Some(u) = &resolved.download_url {
                return DownloadPlan::Direct(u.clone());
            }
            vars.push(TemplateVar::Version(full));
            vars.push(TemplateVar::Platform);
            if let Some(t) = &resolved.release_tag {
                vars.push(TemplateVar::ReleaseTag(t.clone()));
            }
        },
        TemplateSdk::Maven => {
            vars.push(TemplateVar::OsExt);
            vars.push(TemplateVar::Version(full));
        },
        TemplateSdk::Go => {
            vars.push(TemplateVar::Os(OsStyle::Default));
            vars.push(TemplateVar::Arch(ArchStyle::Go));
            vars.push(TemplateVar::OsExt);
            vars.push(TemplateVar::Version(full));
        },
        TemplateSdk::Custom { os, arch } => {
            vars.push(TemplateVar::Os(os));
            vars.push(TemplateVar::Arch(arch));
            vars.push(TemplateVar::OsExt);
            vars.push(TemplateVar::Version(full));
        },
    }
    proof {
        let tv = template_vars(
            sdk,
            resolved.full_version@,
            opt_text(resolved.feature_version),
            opt_text(resolved.release_tag),
        );
        assert(vars@.map_values(|v: TemplateVar| v@) =~= tv);
    }
    DownloadPlan::Render(vars)
}

// ───────────────────────── extraction ─────────────────────────

/// The directory to lift out of an extracted archive: its only entry, when
/// that entry is a directory (`entries`: name and whether it is a directory).
pub fn single_subdir(entries: &Vec<(String, bool)>) -> (r: Option<String>)
    ensures
        entries@.len() == 1 && entries@[0].1 ==> (r matches Some(n) && n@ == entries@[0].0@),
        !(entries@.len() == 1 && entries@[0].1) ==> r is None,
{
    if entries.len() == 1 && entries[0].1 {
        Some(entries[0].0.clone())
    } else {
        None
    }
}

/// The staging directory name used while lifting a nested directory.
pub fn staging_dir_name(target_name: &str) -> (r: String)
    ensures
        r@ == target_name@ + "_staging"@,
{
    let mut r = String::from_str(target_name);
    append_str(&mut r, "_staging");
    r
}

/// Why an installed directory failed verification.
pub enum ExtractCheckError {
    Missing { dir: String },
    Empty { dir: String },
    NoBinDir { sdk: String, bin_dir: String },
}

impl ExtractCheckError {
    /// The error message.
    pub fn message(&self) -> (m: String)
        ensures
            m@ == match *self {
                ExtractCheckError::Missing { dir } => "Extraction verification failed: directory "@ + dir@ + " does not exist"@,
                ExtractCheckError::Empty { dir } => "Extraction verification failed: directory "@ + dir@ + " is empty"@,
                ExtractCheckError::NoBinDir { sdk, bin_dir } => "Extraction verification failed: "@ + sdk@
                    + " bin directory not found at "@ + bin_dir@,
            },
    {
        match self {
            ExtractCheckError::Missing { dir } => {
                let mut m = String::from_str("Extraction verification failed: directory ");
                append_str(&mut m, dir.as_str());
                append_str(&mut m, " does not exist");
                m
            },
            ExtractCheckError::Empty { dir } => {
                let mut m = String::from_str("Extraction verification failed: directory ");
                append_str(&mut m, dir.as_str());
                append_str(&mut m, " is empty");
                m
            },
            ExtractCheckError::NoBinDir { sdk, bin_dir } => {
                let mut m = String::from_str("Extraction verification failed: ");
                append_str(&mut m, sdk.as_str());
                append_str(&mut m, " bin directory not found at ");
                append_str(&mut m, bin_dir.as_str());
                m
            },
        }
    }
}

/// Checks an installed directory: it must exist and hold something, and
/// every SDK but node and python must have a `bin` directory.
pub fn check_extraction(dir: &str, exists: bool, entry_count: usize, sdk: &str, bin_dir: &str, bin_exists: bool) -> (r: Result<(), ExtractCheckError>)
    ensures
        !exists ==> (r matches Err(ExtractCheckError::Missing { dir: d }) && d@ == dir@),
        exists && entry_count == 0 ==> (r matches Err(ExtractCheckError::Empty { dir: d }) && d@ == dir@),
        exists && entry_count > 0 && sdk@ != "node"@ && sdk@ != "python"@ && !bin_exists ==> (r matches Err(
            ExtractCheckError::NoBinDir { sdk: s, bin_dir: b },
        ) && s@ == sdk@ && b@ == bin_dir@),
        exists && entry_count > 0 && (sdk@ == "node"@ || sdk@ == "python"@ || bin_exists) ==> r is Ok,
{
    if !exists {
        return Err(ExtractCheckError::Missing { dir: String::from_str(dir) });
    }
    if entry_count == 0 {
        return Err(ExtractCheckError::Empty { dir: String::from_str(dir) });
    }
    if !str_eq(sdk, "node") && !str_eq(sdk, "python") && !bin_exists {
        return Err(ExtractCheckError::NoBinDir { sdk: String::from_str(sdk), bin_dir: String::from_str(bin_dir) });
    }
    Ok(())
}

} // verus!
