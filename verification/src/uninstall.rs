//! Uninstall decisions: which installed version a request names, what must
//! happen before its directory goes (switch to another version, or clean up
//! the SDK's environment), what the user is asked, and how often removal is
//! tried. Removing directories happens at the edge of the program.

use vstd::prelude::*;
use crate::config::SdkConfig;
use crate::text::{append_str, str_eq};
use crate::version::discovery::{first_equal, opt_text};
use crate::version::fuzzy::{
    any_flag, comps_of, exact_flags, fuzzy_match_version_core, is_newest, no_match_text, prefix_flags, strip_v_spec,
    suggestion_defined, texts_of, FuzzyMatch, NoMatchError,
};

verus! {

/// Why an uninstall cannot be made.
pub enum UninstallError {
    /// The SDK has no installed version.
    NoVersions { sdk: String },
    /// No installed version matches the request.
    NoMatch(NoMatchError),
    /// The matched version is not among the installed ones.
    NotFound { sdk: String, version: String },
    /// The user declined.
    Cancelled,
}

impl UninstallError {
    /// The error message.
    pub fn message(&self) -> (m: String)
        ensures
            match *self {
                UninstallError::NoVersions { sdk } => m@ == "No installed versions for `"@ + sdk@ + "`. Nothing to uninstall."@,
                UninstallError::NoMatch(e) => m@ == no_match_text(e.input@, opt_text(e.suggestion)),
                UninstallError::NotFound { sdk, version } => m@ == "local not found `"@ + sdk@ + "` version `"@ + version@
                    + "`, please check store dir"@,
                UninstallError::Cancelled => m@ == "Uninstall cancelled by user"@,
            },
    {
        match self {
            UninstallError::NoVersions { sdk } => {
                let mut m = String::from_str("No installed versions for `");
                append_str(&mut m, sdk.as_str());
                append_str(&mut m, "`. Nothing to uninstall.");
                m
            },
            UninstallError::NoMatch(e) => {
                let m = e.message();
                assert(opt_text(e.suggestion) == match e.suggestion {
                    Some(s) => Some(s@),
                    None => None,
                });
                m
            },
            UninstallError::NotFound { sdk, version } => {
                let mut m = String::from_str("local not found `");
                append_str(&mut m, sdk.as_str());
                append_str(&mut m, "` version `");
                append_str(&mut m, version.as_str());
                append_str(&mut m, "`, please check store dir");
                m
            },
            UninstallError::Cancelled => String::from_str("Uninstall cancelled by user"),
        }
    }
}

/// The plan of an uninstall.
pub struct UninstallPlan {
    /// The version to remove.
    pub version: String,
    /// Its position in the list of installed versions.
    pub index: usize,
    /// It was found by prefix (the prompt says what the request resolved to).
    pub fuzzy: bool,
    /// It is the active version.
    pub active: bool,
    /// When it is active: the version switched to first, if another is installed.
    pub other: Option<String>,
}

/// The position of the first version other than `t` (the length when there is none).
pub open spec fn first_other(vs: Seq<Seq<char>>, t: Seq<char>) -> int
    decreases vs.len(),
{
    if vs.len() == 0 {
        0
    } else if vs[0] != t {
        0
    } else {
        1 + first_other(vs.drop_first(), t)
    }
}

proof fn lemma_first_other(vs: Seq<Seq<char>>, t: Seq<char>, k: int)
    requires
        0 <= k <= vs.len(),
        forall|j: int| 0 <= j < k ==> vs[j] == t,
        k == vs.len() || vs[k] != t,
    ensures
        first_other(vs, t) == k,
    decreases k,
{
    if k > 0 {
        let u = vs.drop_first();
        assert forall|j: int| 0 <= j < k - 1 implies u[j] == t by {
            assert(u[j] == vs[j + 1]);
        }
        if k < vs.len() {
            assert(u[k - 1] == vs[k]);
        }
        lemma_first_other(u, t, k - 1);
    }
}

proof fn lemma_first_equal_le(vs: Seq<Seq<char>>, t: Seq<char>, i: int)
    requires
        0 <= i < vs.len(),
        vs[i] == t,
    ensures
        first_equal(vs, t) <= i,
    decreases i,
{
    if i > 0 && vs[0] != t {
        lemma_first_equal_le(vs.drop_first(), t, i - 1);
    }
}

/// Plans the uninstall of the installed version of `sdk` that `input` names
/// (exactly or by prefix). An active version is replaced first by the first
/// other installed version, when there is one.
pub fn plan_uninstall(sdk: &str, versions: &Vec<String>, active: &Vec<bool>, input: &str) -> (r: Result<UninstallPlan, UninstallError>)
    requires
        versions@.len() == active@.len(),
        ({
            let vs = texts_of(versions@);
            let norm = strip_v_spec(input@);
            any_flag(exact_flags(vs, norm)) || any_flag(prefix_flags(vs, norm)) || suggestion_defined(vs, input@)
        }),
    ensures
        ({
            let vs = texts_of(versions@);
            let norm = strip_v_spec(input@);
            let ex = exact_flags(vs, norm);
            let pf = prefix_flags(vs, norm);
            &&& (vs.len() == 0 ==> (r matches Err(UninstallError::NoVersions { sdk: s }) && s@ == sdk@))
            &&& (vs.len() > 0 && !(any_flag(ex) || any_flag(pf)) ==> (r matches Err(UninstallError::NoMatch(e)) && e.input@ == input@))
            &&& (r is Ok <==> vs.len() > 0 && (any_flag(ex) || any_flag(pf)))
            &&& (r matches Ok(p) ==> {
                &&& p.fuzzy == !any_flag(ex)
                &&& exists|i: int| is_newest(comps_of(vs), if any_flag(ex) { ex } else { pf }, i) && p.version@ == #[trigger] vs[i]
                &&& p.index == first_equal(vs, p.version@) && p.index < vs.len()
                &&& p.active == active@[p.index as int]
                &&& (p.active ==> ({
                    let o = first_other(vs, p.version@);
                    if o < vs.len() { opt_text(p.other) == Some(vs[o]) } else { p.other is None }
                }))
                &&& (!p.active ==> p.other is None)
            })
        }),
{
    let ghost vs = texts_of(versions@);
    if versions.len() == 0 {
        return Err(UninstallError::NoVersions { sdk: String::from_str(sdk) });
    }
    let m = match fuzzy_match_version_core(versions.as_slice(), input) {
        Ok(m) => m,
        Err(e) => return Err(UninstallError::NoMatch(e)),
    };
    let FuzzyMatch { full_version: target, fuzzy_matched } = m;
    let mut k: usize = 0;
    while k < versions.len() && !str_eq(versions[k].as_str(), target.as_str())
        invariant
            k <= versions@.len(),
            vs == texts_of(versions@),
            forall|j: int| 0 <= j < k ==> vs[j] != target@,
        decreases versions.len() - k,
    {
        k = k + 1;
    }
    proof {
        crate::version::discovery::lemma_first_equal(vs, target@, k as int);
        let norm = strip_v_spec(input@);
        let ex = exact_flags(vs, norm);
        let fl = if any_flag(ex) { ex } else { prefix_flags(vs, norm) };
        let i = choose|i: int| is_newest(comps_of(vs), fl, i) && target@ == #[trigger] vs[i];
        assert(comps_of(vs).len() == vs.len());
        lemma_first_equal_le(vs, target@, i);
    }
    if k == versions.len() {
        return Err(UninstallError::NotFound { sdk: String::from_str(sdk), version: target });
    }
    let is_active = active[k];
    let other = if is_active {
        let mut j: usize = 0;
        while j < versions.len() && str_eq(versions[j].as_str(), target.as_str())
            invariant
                j <= versions@.len(),
                vs == texts_of(versions@),
                forall|t: int| 0 <= t < j ==> vs[t] == target@,
            decreases versions.len() - j,
        {
            j = j + 1;
        }
        proof {
            lemma_first_other(vs, target@, j as int);
        }
        if j < versions.len() {
            Some(versions[j].clone())
        } else {
            None
        }
    } else {
        None
    };
    Ok(UninstallPlan { version: target, index: k, fuzzy: fuzzy_matched, active: is_active, other })
}

/// The question asked before an uninstall: what the request resolved to
/// (when found by prefix), then what sdkm will do.
pub open spec fn uninstall_prompt_text(sdk: Seq<char>, input: Seq<char>, version: Seq<char>, fuzzy: bool, active: bool, other: Option<Seq<char>>) -> Seq<char> {
    let resolved = if fuzzy { "Resolved '"@ + input + "' → '"@ + version + "'. "@ } else { Seq::<char>::empty() };
    let action = if active {
        match other {
            Some(o) => "`"@ + sdk + "` `"@ + version + "` is the active version. sdkm will switch to `"@ + o + "` first, then uninstall."@,
            None => "`"@ + sdk + "` `"@ + version
                + "` is the only installed version. sdkm will clean up symlink, PATH, env vars and current_version, then remove it."@,
        }
    } else {
        "sdkm will uninstall `"@ + sdk + "` `"@ + version + "` (remove the version directory only)."@
    };
    resolved + action + " Continue?"@
}

/// The question asked before carrying out `plan`.
pub fn uninstall_prompt(sdk: &str, input: &str, plan: &UninstallPlan) -> (m: String)
    ensures
        m@ == uninstall_prompt_text(sdk@, input@, plan.version@, plan.fuzzy, plan.active, opt_text(plan.other)),
{
    let mut m = String::new();
    if plan.fuzzy {
        append_str(&mut m, "Resolved '");
        append_str(&mut m, input);
        append_str(&mut m, "' → '");
        append_str(&mut m, plan.version.as_str());
        append_str(&mut m, "'. ");
    }
    let ghost resolved = m@;
    if plan.active {
        match &plan.other {
            Some(o) => {
                append_str(&mut m, "`");
                append_str(&mut m, sdk);
                append_str(&mut m, "` `");
                append_str(&mut m, plan.version.as_str());
                append_str(&mut m, "` is the active version. sdkm will switch to `");
                append_str(&mut m, o.as_str());
                append_str(&mut m, "` first, then uninstall.");
            },
            None => {
                append_str(&mut m, "`");
                append_str(&mut m, sdk);
                append_str(&mut m, "` `");
                append_str(&mut m, plan.version.as_str());
                append_str(
                    &mut m,
                    "` is the only installed version. sdkm will clean up symlink, PATH, env vars and current_version, then remove it.",
                );
            },
        }
    } else {
        append_str(&mut m, "sdkm will uninstall `");
        append_str(&mut m, sdk);
        append_str(&mut m, "` `");
        append_str(&mut m, plan.version.as_str());
        append_str(&mut m, "` (remove the version directory only).");
    }
    append_str(&mut m, " Continue?");
    assert(m@ =~= uninstall_prompt_text(sdk@, input@, plan.version@, plan.fuzzy, plan.active, opt_text(plan.other)));
    m
}

/// Attempts to remove a version directory (it may be locked for a moment).
pub const REMOVE_ATTEMPTS: u32 = 3;

/// Milliseconds waited between removal attempts.
pub const REMOVE_RETRY_MS: u64 = 300;

/// What follows a removal attempt.
#[derive(Clone, Copy, Debug, PartialEq, Eq, Structural)]
pub enum RemovalStep {
    /// The directory is gone.
    Removed,
    /// Wait this many milliseconds, then try again.
    RetryAfter { ms: u64 },
    /// Give up: the user is told to remove it by hand.
    GiveUp,
}

/// The step after attempt `attempt` (from 0): a failure is retried after a
/// short wait until three attempts were made.
pub fn removal_step(attempt: u32, removed: bool) -> (s: RemovalStep)
    requires
        attempt < REMOVE_ATTEMPTS,
    ensures
        removed ==> s == RemovalStep::Removed,
        !removed && attempt + 1 < REMOVE_ATTEMPTS ==> s == (RemovalStep::RetryAfter { ms: REMOVE_RETRY_MS }),
        !removed && attempt + 1 >= REMOVE_ATTEMPTS ==> s == RemovalStep::GiveUp,
{
    if removed {
        RemovalStep::Removed
    } else if (attempt + 1 < REMOVE_ATTEMPTS) {
        RemovalStep::RetryAfter { ms: REMOVE_RETRY_MS }
    } else {
        RemovalStep::GiveUp
    }
}

/// The names of the SDKs with an active version, in order.
pub open spec fn active_names(sdks: Seq<SdkConfig>) -> Seq<Seq<char>>
    decreases sdks.len(),
{
    if sdks.len() == 0 {
        Seq::empty()
    } else {
        let r = active_names(sdks.drop_last());
        if sdks.last().current_version is Some {
            r.push(sdks.last().name@)
        } else {
            r
        }
    }
}

/// The SDKs whose environment a self-uninstall cleans up: those with an
/// active version.
pub fn active_sdk_names(sdks: &Vec<SdkConfig>) -> (r: Vec<String>)
    ensures
        crate::config::string_texts(r@) == active_names(sdks@),
{
    let mut r: Vec<String> = Vec::new();
    let mut i: usize = 0;
    while i < sdks.len()
        invariant
            i <= sdks@.len(),
            crate::config::string_texts(r@) == active_names(sdks@.take(i as int)),
        decreases sdks.len() - i,
    {
        assert(sdks@.take(i + 1).drop_last() =~= sdks@.take(i as int));
        if sdks[i].current_version.is_some() {
            let ghost before = r@;
            r.push(sdks[i].name.clone());
            assert(crate::config::string_texts(r@) =~= crate::config::string_texts(before).push(sdks@[i as int].name@));
        }
        i = i + 1;
    }
    assert(sdks@.take(sdks@.len() as int) =~= sdks@);
    r
}

} // verus!
