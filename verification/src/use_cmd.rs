//! Decisions of `sdkm use`: the version a request resolves to among the
//! installed ones, the value pinned in the project file, and the script that
//! sets a session override. Reading the store and writing files happen at
//! the edge of the program.

use vstd::prelude::*;
use crate::shell::{env_suffix, export_line, ShellKind};
use crate::text::append_str;
use crate::version::fuzzy::{
    any_flag, comps_of, exact_flags, fuzzy_match_version_core, is_newest, prefix_flags, strip_v_spec, suggestion_defined,
    texts_of,
};

verus! {

/// Why a session override cannot be set.
pub enum UseError {
    /// The version is not installed, so the override could not resolve.
    NotInstalled,
}

impl UseError {
    /// The error message.
    pub fn message(&self) -> (m: String)
        ensures
            m@ == "session version requires a locally installed version"@,
    {
        String::from_str("session version requires a locally installed version")
    }
}

/// The installed version a request names, if any: `None` when nothing is
/// installed or nothing matches (the request then counts as not installed).
pub fn resolve_local_version(versions: &Vec<String>, input: &str) -> (r: Option<String>)
    requires
        ({
            let vs = texts_of(versions@);
            let norm = strip_v_spec(input@);
            any_flag(exact_flags(vs, norm)) || any_flag(prefix_flags(vs, norm)) || suggestion_defined(vs, input@)
        }),
    ensures
        ({
            let vs = texts_of(versions@);
            let norm = strip_v_spec(input@);
            let ex = exact_flags(vs, norm);
            let pf = prefix_flags(vs, norm);
            &&& (r is Some <==> any_flag(ex) || any_flag(pf))
            &&& (r matches Some(v) ==> exists|i: int| is_newest(comps_of(vs), if any_flag(ex) { ex } else { pf }, i) && v@ == #[trigger] vs[i])
        }),
{
    if versions.len() == 0 {
        proof {
            let vs = texts_of(versions@);
            let norm = strip_v_spec(input@);
            assert(!any_flag(exact_flags(vs, norm)));
            assert(!any_flag(prefix_flags(vs, norm)));
        }
        return None;
    }
    match fuzzy_match_version_core(versions.as_slice(), input) {
        Ok(m) => Some(m.full_version),
        Err(_) => None,
    }
}

/// The value pinned in the project file: the installed version resolved,
/// else the request itself (pinned as intent, used once installed).
pub fn project_pin_value(resolved: Option<String>, input: &str) -> (r: String)
    ensures
        r@ == match resolved {
            Some(v) => v@,
            None => input@,
        },
{
    match resolved {
        Some(v) => v,
        None => String::from_str(input),
    }
}

/// The script that sets the session override of `sdk_name` (variable
/// `prefix` + its sanitized name) to the resolved version; an error when the
/// version is not installed.
pub fn session_use_script(sh: ShellKind, prefix: &str, sdk_name: &str, resolved: Option<&str>) -> (r: Result<String, UseError>)
    ensures
        match resolved {
            Some(v) => r matches Ok(s) && s@ == export_line(sh, prefix@ + env_suffix(sdk_name@), v@) + "\n"@,
            None => r is Err,
        },
{
    match resolved {
        Some(v) => {
            let var = crate::shell::session_var_name(prefix, sdk_name);
            let mut s = crate::shell::export_line_string(sh, var.as_str(), v);
            append_str(&mut s, "\n");
            Ok(s)
        },
        None => Err(UseError::NotInstalled),
    }
}

} // verus!
