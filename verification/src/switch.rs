//! Switch decisions: which installed version a request names, whether the
//! SDK's directories must be added to PATH, and how a failed switch is rolled
//! back. Links, PATH and the environment are changed at the edge of the
//! program, in the order these decisions give.

use vstd::prelude::*;
use crate::platform::{Target, TargetOs};
use crate::text::{append_str, chars_of, contains_exec, contains_seq, starts_with, starts_with_exec, str_eq};
use crate::config::{
    current_version_of, lemma_current_version_restore, pair_texts, string_texts, with_current_version, ConfigModel, SdkmConfig,
};
use crate::version::discovery::{first_equal, opt_text};
use crate::version::fuzzy::{
    any_flag, exact_flags, fuzzy_match_version_core, is_newest, comps_of, prefix_flags, strip_v_spec,
    suggestion_defined, texts_of, FuzzyMatch, NoMatchError,
};

verus! {

/// Why a switch cannot be made.
pub enum SwitchError {
    /// No installed version matches the request.
    NoMatch(NoMatchError),
    /// The matched version is not among the installed ones.
    NotInstalled { sdk: String, version: String },
}

impl SwitchError {
    /// The error message.
    pub fn message(&self) -> (m: String)
        ensures
            match *self {
                SwitchError::NoMatch(e) => m@ == crate::version::fuzzy::no_match_text(
                    e.input@,
                    match e.suggestion {
                        Some(s) => Some(s@),
                        None => None,
                    },
                ),
                SwitchError::NotInstalled { sdk, version } => m@ == "local not found `"@ + sdk@ + "` version `"@ + version@
                    + "`, please check store dir or install the version!"@,
            },
    {
        match self {
            SwitchError::NoMatch(e) => e.message(),
            SwitchError::NotInstalled { sdk, version } => {
                let mut m = String::from_str("local not found `");
                append_str(&mut m, sdk.as_str());
                append_str(&mut m, "` version `");
                append_str(&mut m, version.as_str());
                append_str(&mut m, "`, please check store dir or install the version!");
                m
            },
        }
    }
}

/// What a switch request comes to.
pub enum SwitchTarget {
    /// The version is already the active one: nothing to change.
    AlreadyActive,
    /// Link the installed version at this position of the list.
    Link { index: usize },
}

/// The plan of a switch: the version matched, whether the user must confirm
/// it first (it was found by prefix), and what to do.
pub struct SwitchPlan {
    pub version: String,
    pub confirm: bool,
    pub action: SwitchTarget,
}

/// Some version of the list equal to `v` is marked active.
pub open spec fn active_as(vs: Seq<Seq<char>>, active: Seq<bool>, v: Seq<char>) -> bool {
    exists|i: int| 0 <= i < vs.len() && active[i] && #[trigger] vs[i] == v
}

/// Plans a switch of `sdk` to the installed version that `input` names
/// (exactly, or by prefix to be confirmed).
pub fn plan_switch(sdk: &str, versions: &Vec<String>, active: &Vec<bool>, input: &str) -> (r: Result<SwitchPlan, SwitchError>)
    requires
        versions@.len() == active@.len(),
        ({
            let vs = texts_of(versions@);
            let norm = strip_v_spec(input@);
            any_flag(exact_flags(vs, norm)) || any_flag(prefix_flags(vs, norm)) || suggestion_defined(vs, input@)
        }),
    ensures
        ({
            let vs = texts_of(versions@);
            let norm = strip_v_spec(input@);
            let ex = exact_flags(vs, norm);
            let pf = prefix_flags(vs, norm);
            &&& (r is Ok <==> any_flag(ex) || any_flag(pf))
            &&& (!(any_flag(ex) || any_flag(pf)) ==> (r matches Err(SwitchError::NoMatch(e)) && e.input@ == input@))
            &&& (r matches Ok(p) ==> {
                &&& p.confirm == !any_flag(ex)
                &&& exists|i: int| is_newest(comps_of(vs), if any_flag(ex) { ex } else { pf }, i) && p.version@ == #[trigger] vs[i]
                &&& (active_as(vs, active@, p.version@) <==> p.action is AlreadyActive)
                &&& (p.action matches SwitchTarget::Link { index } ==> index == first_equal(vs, p.version@) && index < vs.len())
            })
        }),
{
    let ghost vs = texts_of(versions@);
    let m = match fuzzy_match_version_core(versions.as_slice(), input) {
        Ok(m) => m,
        Err(e) => return Err(SwitchError::NoMatch(e)),
    };
    let FuzzyMatch { full_version: target, fuzzy_matched } = m;
    if is_active_version(versions, active, target.as_str()) {
        return Ok(SwitchPlan { version: target, confirm: fuzzy_matched, action: SwitchTarget::AlreadyActive });
    }
    let k = position_of(versions, target.as_str());
    proof {
        let vs = texts_of(versions@);
        let norm = strip_v_spec(input@);
        let ex = exact_flags(vs, norm);
        let fl = if any_flag(ex) { ex } else { prefix_flags(vs, norm) };
        let i = choose|i: int| is_newest(comps_of(vs), fl, i) && target@ == #[trigger] vs[i];
        assert(comps_of(vs).len() == vs.len());
        lemma_first_equal_le(vs, target@, i);
    }
    if k == versions.len() {
        return Err(SwitchError::NotInstalled { sdk: String::from_str(sdk), version: target });
    }
    Ok(SwitchPlan { version: target, confirm: fuzzy_matched, action: SwitchTarget::Link { index: k } })
}

proof fn lemma_first_equal_le(vs: Seq<Seq<char>>, t: Seq<char>, i: int)
    requires
        0 <= i < vs.len(),
        vs[i] == t,
    ensures
        first_equal(vs, t) <= i,
    decreases i,
{
    if i > 0 && vs[0] != t {
        lemma_first_equal_le(vs.drop_first(), t, i - 1);
    }
}

/// Whether version `v` is in the list and marked active there.
fn is_active_version(versions: &Vec<String>, active: &Vec<bool>, v: &str) -> (r: bool)
    requires
        versions@.len() == active@.len(),
    ensures
        r == active_as(texts_of(versions@), active@, v@),
{
    let ghost vs = texts_of(versions@);
    let mut i: usize = 0;
    while i < versions.len()
        invariant
            i <= versions@.len(),
            versions@.len() == active@.len(),
            vs == texts_of(versions@),
            forall|j: int| 0 <= j < i ==> !(active@[j] && vs[j] == v@),
        decreases versions.len() - i,
    {
        if active[i] && str_eq(versions[i].as_str(), v) {
            assert(vs[i as int] == v@);
            return true;
        }
        i = i + 1;
    }
    false
}

/// The position of the first version equal to `v` (the length when none is).
fn position_of(versions: &Vec<String>, v: &str) -> (k: usize)
    ensures
        k == first_equal(texts_of(versions@), v@),
        k <= versions@.len(),
{
    let ghost vs = texts_of(versions@);
    let mut k: usize = 0;
    while k < versions.len() && !str_eq(versions[k].as_str(), v)
        invariant
            k <= versions@.len(),
            vs == texts_of(versions@),
            forall|j: int| 0 <= j < k ==> vs[j] != v@,
        decreases versions.len() - k,
    {
        k = k + 1;
    }
    proof {
        crate::version::discovery::lemma_first_equal(vs, v@, k as int);
    }
    k
}

/// The SDK's bin directory must be added to PATH (with its environment
/// variables) unless PATH already contains it.
pub fn need_add_path(path: &str, bin_dir: &str) -> (r: bool)
    ensures
        r == !contains_seq(path@, bin_dir@),
{
    let p = chars_of(path);
    let b = chars_of(bin_dir);
    !contains_exec(&p, &b)
}

/// A saved environment variable as text: its name and old value, if any.
pub open spec fn saved_texts(saved: Seq<(String, Option<String>)>) -> Seq<(Seq<char>, Option<Seq<char>>)> {
    saved.map_values(|p: (String, Option<String>)| (p.0@, opt_text(p.1)))
}

/// The variables to write back: those that had a value, with it, in order.
pub open spec fn to_restore(saved: Seq<(Seq<char>, Option<Seq<char>>)>) -> Seq<(Seq<char>, Seq<char>)>
    decreases saved.len(),
{
    if saved.len() == 0 {
        Seq::empty()
    } else {
        let r = to_restore(saved.drop_last());
        match saved.last().1 {
            Some(v) => r.push((saved.last().0, v)),
            None => r,
        }
    }
}

/// The variables to remove: those that had no value, in order.
pub open spec fn to_unset(saved: Seq<(Seq<char>, Option<Seq<char>>)>) -> Seq<Seq<char>>
    decreases saved.len(),
{
    if saved.len() == 0 {
        Seq::empty()
    } else {
        let r = to_unset(saved.drop_last());
        match saved.last().1 {
            Some(v) => r,
            None => r.push(saved.last().0),
        }
    }
}

/// Splits the environment values saved before a switch into those to write
/// back (they had a value) and those to remove (they had none), each in the
/// saved order.
pub fn env_restore_plan(saved: &Vec<(String, Option<String>)>) -> (r: (Vec<(String, String)>, Vec<String>))
    ensures
        pair_texts(r.0@) == to_restore(saved_texts(saved@)),
        string_texts(r.1@) == to_unset(saved_texts(saved@)),
{
    let ghost st = saved_texts(saved@);
    let mut restore: Vec<(String, String)> = Vec::new();
    let mut unset: Vec<String> = Vec::new();
    let mut j: usize = 0;
    while j < saved.len()
        invariant
            j <= saved@.len(),
            st == saved_texts(saved@),
            pair_texts(restore@) == to_restore(st.take(j as int)),
            string_texts(unset@) == to_unset(st.take(j as int)),
        decreases saved.len() - j,
    {
        assert(st.take(j + 1).drop_last() =~= st.take(j as int));
        assert(st.take(j + 1).last() == st[j as int]);
        match &saved[j].1 {
            Some(v) => {
                restore.push((saved[j].0.clone(), v.clone()));
                assert(pair_texts(restore@) =~= to_restore(st.take(j as int)).push((saved@[j as int].0@, v@)));
            },
            None => {
                unset.push(saved[j].0.clone());
                assert(string_texts(unset@) =~= to_unset(st.take(j as int)).push(saved@[j as int].0@));
            },
        }
        j = j + 1;
    }
    assert(st.take(saved@.len() as int) =~= st);
    (restore, unset)
}

/// An environment (name → value) after setting the pairs, in order.
pub open spec fn apply_sets(env: Map<Seq<char>, Seq<char>>, sets: Seq<(Seq<char>, Seq<char>)>) -> Map<Seq<char>, Seq<char>>
    decreases sets.len(),
{
    if sets.len() == 0 {
        env
    } else {
        apply_sets(env, sets.drop_last()).insert(sets.last().0, sets.last().1)
    }
}

/// An environment after removing the names, in order.
pub open spec fn apply_unsets(env: Map<Seq<char>, Seq<char>>, names: Seq<Seq<char>>) -> Map<Seq<char>, Seq<char>>
    decreases names.len(),
{
    if names.len() == 0 {
        env
    } else {
        apply_unsets(env, names.drop_last()).remove(names.last())
    }
}

/// The values of the names in an environment, as saved before a switch.
pub open spec fn saved_from(env: Map<Seq<char>, Seq<char>>, names: Seq<Seq<char>>) -> Seq<(Seq<char>, Option<Seq<char>>)> {
    names.map_values(|k: Seq<char>| (k, if env.dom().contains(k) { Some(env[k]) } else { None }))
}

/// Sets of other names leave a name as it was; every set of the name gives
/// it the same value `w`, so after at least one it has `w`.
proof fn lemma_apply_sets_at(env: Map<Seq<char>, Seq<char>>, sets: Seq<(Seq<char>, Seq<char>)>, k: Seq<char>, w: Seq<char>)
    requires
        forall|i: int| 0 <= i < sets.len() && (#[trigger] sets[i]).0 == k ==> sets[i].1 == w,
    ensures
        (exists|i: int| 0 <= i < sets.len() && (#[trigger] sets[i]).0 == k) ==> apply_sets(env, sets).dom().contains(k)
            && apply_sets(env, sets)[k] == w,
        !(exists|i: int| 0 <= i < sets.len() && (#[trigger] sets[i]).0 == k) ==> (apply_sets(env, sets).dom().contains(k)
            == env.dom().contains(k) && (env.dom().contains(k) ==> apply_sets(env, sets)[k] == env[k])),
    decreases sets.len(),
{
    if sets.len() > 0 {
        let front = sets.drop_last();
        assert forall|i: int| 0 <= i < front.len() && (#[trigger] front[i]).0 == k implies front[i].1 == w by {
            assert(front[i] == sets[i]);
        }
        lemma_apply_sets_at(env, front, k, w);
        if sets.last().0 != k {
            if exists|i: int| 0 <= i < sets.len() && (#[trigger] sets[i]).0 == k {
                let i = choose|i: int| 0 <= i < sets.len() && (#[trigger] sets[i]).0 == k;
                assert(i != sets.len() - 1);
                assert(front[i] == sets[i]);
            }
            if exists|i: int| 0 <= i < front.len() && (#[trigger] front[i]).0 == k {
                let i = choose|i: int| 0 <= i < front.len() && (#[trigger] front[i]).0 == k;
                assert(sets[i] == front[i]);
            }
        } else {
            assert(sets[sets.len() - 1].0 == k);
        }
    }
}

/// Removals drop the names removed and leave the others.
proof fn lemma_apply_unsets_at(env: Map<Seq<char>, Seq<char>>, names: Seq<Seq<char>>, k: Seq<char>)
    ensures
        names.contains(k) ==> !apply_unsets(env, names).dom().contains(k),
        !names.contains(k) ==> (apply_unsets(env, names).dom().contains(k) == env.dom().contains(k)
            && (env.dom().contains(k) ==> apply_unsets(env, names)[k] == env[k])),
    decreases names.len(),
{
    if names.len() > 0 {
        let front = names.drop_last();
        lemma_apply_unsets_at(env, front, k);
        if names.last() != k {
            if names.contains(k) {
                let i = choose|i: int| 0 <= i < names.len() && names[i] == k;
                assert(front[i] == k);
            }
            if front.contains(k) {
                let i = choose|i: int| 0 <= i < front.len() && front[i] == k;
                assert(names[i] == k);
            }
        }
    }
}

/// The writes of the restore plan are pairs of saved names and their old values.
proof fn lemma_to_restore_from(env: Map<Seq<char>, Seq<char>>, names: Seq<Seq<char>>)
    ensures
        forall|i: int| 0 <= i < to_restore(saved_from(env, names)).len() ==> {
            let p = #[trigger] to_restore(saved_from(env, names))[i];
            names.contains(p.0) && env.dom().contains(p.0) && p.1 == env[p.0]
        },
        forall|k: Seq<char>| names.contains(k) && env.dom().contains(k) ==> exists|i: int|
            0 <= i < to_restore(saved_from(env, names)).len() && (#[trigger] to_restore(saved_from(env, names))[i]).0 == k,
        forall|k: Seq<char>| #[trigger] to_unset(saved_from(env, names)).contains(k) ==> names.contains(k) && !env.dom().contains(k),
        forall|k: Seq<char>| names.contains(k) && !env.dom().contains(k) ==> #[trigger] to_unset(saved_from(env, names)).contains(k),
    decreases names.len(),
{
    if names.len() > 0 {
        let front = names.drop_last();
        lemma_to_restore_from(env, front);
        assert(saved_from(env, names).drop_last() =~= saved_from(env, front));
        let last = names.last();
        let r0 = to_restore(saved_from(env, front));
        let u0 = to_unset(saved_from(env, front));
        assert forall|k: Seq<char>| front.contains(k) implies names.contains(k) by {
            let i = choose|i: int| 0 <= i < front.len() && front[i] == k;
            assert(names[i] == k);
        }
        assert(names.contains(last)) by {
            assert(names[names.len() - 1] == last);
        }
        assert forall|k: Seq<char>| names.contains(k) && k != last implies front.contains(k) by {
            let i = choose|i: int| 0 <= i < names.len() && names[i] == k;
            assert(i != names.len() - 1);
            assert(front[i] == k);
        }
        if env.dom().contains(last) {
            let r = to_restore(saved_from(env, names));
            assert(r == r0.push((last, env[last])));
            assert(to_unset(saved_from(env, names)) == u0);
            assert forall|k: Seq<char>| names.contains(k) && env.dom().contains(k) implies exists|i: int|
                0 <= i < r.len() && (#[trigger] r[i]).0 == k by {
                if k == last {
                    assert(r[r.len() - 1].0 == k);
                } else {
                    let i = choose|i: int| 0 <= i < r0.len() && (#[trigger] r0[i]).0 == k;
                    assert(r[i] == r0[i]);
                }
            }
        } else {
            let u = to_unset(saved_from(env, names));
            assert(to_restore(saved_from(env, names)) == r0);
            assert(u == u0.push(last));
            assert forall|k: Seq<char>| #[trigger] u.contains(k) implies names.contains(k) && !env.dom().contains(k) by {
                let i = choose|i: int| 0 <= i < u.len() && u[i] == k;
                if i < u0.len() {
                    assert(u0[i] == k);
                    assert(u0.contains(k));
                }
            }
            assert forall|k: Seq<char>| names.contains(k) && !env.dom().contains(k) implies #[trigger] u.contains(k) by {
                if k == last {
                    assert(u[u.len() - 1] == k);
                } else {
                    assert(u0.contains(k));
                    let i = choose|i: int| 0 <= i < u0.len() && u0[i] == k;
                    assert(u[i] == k);
                }
            }
        }
    }
}

/// A failed switch is undone: when a switch changed only the saved
/// variables, writing back the values of the restore plan and removing the
/// variables it lists gives every variable its value before the switch (or
/// none, when it had none).
pub proof fn lemma_restore_undoes_switch(
    before: Map<Seq<char>, Seq<char>>,
    after: Map<Seq<char>, Seq<char>>,
    names: Seq<Seq<char>>,
)
    requires
        forall|k: Seq<char>| !names.contains(k) ==> #[trigger] after.dom().contains(k) == before.dom().contains(k),
        forall|k: Seq<char>| !names.contains(k) && before.dom().contains(k) ==> #[trigger] after[k] == before[k],
    ensures
        apply_unsets(apply_sets(after, to_restore(saved_from(before, names))), to_unset(saved_from(before, names)))
            == before,
{
    let sets = to_restore(saved_from(before, names));
    let unsets = to_unset(saved_from(before, names));
    let mid = apply_sets(after, sets);
    let fin = apply_unsets(mid, unsets);
    lemma_to_restore_from(before, names);
    assert forall|k: Seq<char>| #[trigger] fin.dom().contains(k) == before.dom().contains(k)
        && (before.dom().contains(k) ==> fin[k] == before[k]) by {
        let w = if before.dom().contains(k) { before[k] } else { Seq::empty() };
        assert forall|i: int| 0 <= i < sets.len() && (#[trigger] sets[i]).0 == k implies sets[i].1 == w by {}
        lemma_apply_sets_at(after, sets, k, w);
        lemma_apply_unsets_at(mid, unsets, k);
        if names.contains(k) {
            if before.dom().contains(k) {
                assert(!unsets.contains(k));
            } else {
                assert(unsets.contains(k));
            }
        } else {
            assert(!unsets.contains(k));
            assert(after.dom().contains(k) == before.dom().contains(k));
            if exists|i: int| 0 <= i < sets.len() && (#[trigger] sets[i]).0 == k {
                let i = choose|i: int| 0 <= i < sets.len() && (#[trigger] sets[i]).0 == k;
                assert(names.contains(sets[i].0));
            }
        }
    }
    assert(fin =~= before);
}

// ───────────────────────── running a switch ─────────────────────────

/// What a switch changes, decided before it starts.
pub struct SwitchRun {
    /// Whether the SDK's variables are set (only when PATH lacks its bin directory).
    pub set_vars: bool,
    /// The PATH entries to add, in order (the bin directory first).
    pub paths: Vec<String>,
    /// The SDK's variables with their values before the switch.
    pub saved: Vec<(String, Option<String>)>,
    /// Where the link pointed before the switch, if it existed.
    pub old_link: Option<String>,
    /// The link's path (for messages).
    pub link: String,
    pub target: Target,
    /// The SDK's name in the configuration.
    pub sdk: String,
    /// The version switched to.
    pub version: String,
    /// The SDK's current version in the configuration before the switch.
    pub old_version: Option<String>,
}

/// Where a switch stands.
pub enum SwitchStage {
    /// Pointing the SDK's link at the version.
    Linking,
    /// Setting the SDK's variables.
    SettingVars,
    /// Adding the PATH entry at this position.
    AddingPath { index: usize },
    /// Writing the configuration with the new current version.
    WritingConfig,
    /// Undoing the switch after a step failed with this error.
    RollingBack { error: String, os_code: Option<i32> },
    /// Nothing is left to do.
    Finished,
}

/// What the outside work of a step reported.
pub enum SwitchEvent {
    /// The step succeeded.
    Done,
    /// The step failed (`os_code`: the OS error code, when there is one).
    Failed { error: String, os_code: Option<i32> },
    /// The rollback ran; each flag tells a part that could not be undone.
    RolledBack { config_failed: bool, paths_failed: bool, envs_failed: bool, link_failed: bool },
}

/// The outside work to do next.
pub enum SwitchAction {
    /// Point the link at the version.
    CreateLink,
    /// Set the SDK's variables.
    SetVars,
    /// Add this entry to PATH.
    AddPath { entry: String },
    /// Write the configuration (its current version already set).
    WriteConfig,
    /// Undo the switch (the configuration kept in memory is already back as
    /// it was before the switch): remove the added PATH entries (newest first), write back the variables that had a
    /// value and remove those that had none, then remove the link and point
    /// it back at its old target, if it had one.
    RollBack {
        remove_paths: Vec<String>,
        restore_vars: Vec<(String, String)>,
        unset_vars: Vec<String>,
        relink: Option<String>,
    },
    /// The switch is complete.
    Succeed,
    /// The switch failed with this error; the parts the rollback could not
    /// undo are listed with a suggestion each.
    Fail { error: String, failures: Vec<(String, String)> },
}

/// The event that each stage waits for.
pub open spec fn switch_expects(stage: SwitchStage, ev: SwitchEvent) -> bool {
    match stage {
        SwitchStage::RollingBack { .. } => ev is RolledBack,
        SwitchStage::Finished => false,
        _ => ev is Done || ev is Failed,
    }
}

/// The stage is one of this run.
pub open spec fn switch_stage_ok(run: SwitchRun, stage: SwitchStage) -> bool {
    stage matches SwitchStage::AddingPath { index } ==> index < run.paths@.len()
}

/// How many PATH entries were added before a stage.
pub open spec fn added_before(run: SwitchRun, stage: SwitchStage) -> int {
    match stage {
        SwitchStage::AddingPath { index } => index as int,
        SwitchStage::WritingConfig => run.paths@.len() as int,
        _ => 0,
    }
}

/// The most steps left from a stage; each step leaves fewer.
pub open spec fn switch_steps_left(run: SwitchRun, stage: SwitchStage) -> int {
    let n = run.paths@.len() as int;
    match stage {
        SwitchStage::Linking => n + 4,
        SwitchStage::SettingVars => n + 3,
        SwitchStage::AddingPath { index } => n - index + 2,
        SwitchStage::WritingConfig => 2,
        SwitchStage::RollingBack { .. } => 1,
        SwitchStage::Finished => 0,
    }
}

/// The stage and action that follow a successful link, variables or PATH step.
pub open spec fn after_success(run: SwitchRun, stage: SwitchStage, next: SwitchStage, a: SwitchAction) -> bool {
    let n = run.paths@.len();
    let first_path = (n > 0 ==> next == SwitchStage::AddingPath { index: 0 } && (a matches SwitchAction::AddPath { entry }
        && entry@ == run.paths@[0]@)) && (n == 0 ==> next == SwitchStage::WritingConfig && a is WriteConfig);
    match stage {
        SwitchStage::Linking => if run.set_vars {
            next == SwitchStage::SettingVars && a is SetVars
        } else {
            first_path
        },
        SwitchStage::SettingVars => first_path,
        SwitchStage::AddingPath { index } => if index + 1 < n {
            next == (SwitchStage::AddingPath { index: (index + 1) as usize }) && (a matches SwitchAction::AddPath { entry }
                && entry@ == run.paths@[index + 1]@)
        } else {
            next == SwitchStage::WritingConfig && a is WriteConfig
        },
        SwitchStage::WritingConfig => next == SwitchStage::Finished && a is Succeed,
        _ => true,
    }
}

/// The rollback of a failed step: the entries added so far are removed,
/// newest first; the saved variables are written back or removed; the link
/// goes back to its old target.
pub open spec fn is_rollback(run: SwitchRun, added: int, a: SwitchAction) -> bool {
    a matches SwitchAction::RollBack { remove_paths, restore_vars, unset_vars, relink }
        && remove_paths@.len() == added
        && (forall|i: int| 0 <= i < added ==> #[trigger] remove_paths@[i]@ == run.paths@[added - 1 - i]@)
        && pair_texts(restore_vars@) == to_restore(saved_texts(run.saved@))
        && string_texts(unset_vars@) == to_unset(saved_texts(run.saved@))
        && opt_text(relink) == opt_text(run.old_link)
}

/// The error of a failed switch: the failed step's error, followed by what to
/// do when it was a permission error.
pub open spec fn switch_error_text(error: Seq<char>, os_code: Option<i32>, target: Target) -> Seq<char> {
    match os_code {
        Some(c) => if c == 5 || c == 13 || c == 1314 {
            error + ": "@ + (if target.os == TargetOs::Windows { "run sdkm as administrator"@ } else { "check permissions"@ })
        } else {
            error
        },
        None => error,
    }
}

/// The first step of a switch.
pub fn start_switch() -> (r: (SwitchStage, SwitchAction))
    ensures
        r.0 == SwitchStage::Linking,
        r.1 is CreateLink,
{
    (SwitchStage::Linking, SwitchAction::CreateLink)
}

/// The PATH entries added before the `n`-th, newest first.
fn added_newest_first(paths: &Vec<String>, n: usize) -> (r: Vec<String>)
    requires
        n <= paths@.len(),
    ensures
        r@.len() == n,
        forall|i: int| 0 <= i < n ==> #[trigger] r@[i]@ == paths@[n - 1 - i]@,
{
    let mut r: Vec<String> = Vec::new();
    let mut k: usize = n;
    while k > 0
        invariant
            k <= n,
            n <= paths@.len(),
            r@.len() == n - k,
            forall|i: int| 0 <= i < r@.len() ==> #[trigger] r@[i]@ == paths@[n - 1 - i]@,
        decreases k,
    {
        k = k - 1;
        r.push(paths[k].clone());
    }
    r
}

/// The step after the outside work of `stage` reported `ev`. The steps run
/// in order: link, variables (when they are set), each PATH entry, the
/// configuration. A failed step starts the rollback of what the switch
/// changed; after it the switch fails with the step's error (with the
/// permission hint for a permission error) and the parts that could not be
/// undone. The configuration kept in memory, `cfg`, gets the new current
/// version just before it is written, and its old current version back
/// when a step fails.
pub fn next_switch_step(run: &SwitchRun, cfg: &mut SdkmConfig, stage: SwitchStage, ev: SwitchEvent) -> (r: (SwitchStage, SwitchAction))
    requires
        switch_expects(stage, ev),
        switch_stage_ok(*run, stage),
    ensures
        ev is Done && r.0 == SwitchStage::WritingConfig ==> final(cfg)@ == with_current_version(
            old(cfg)@,
            run.sdk@,
            Some(run.version@),
        ),
        ev is Failed ==> final(cfg)@ == with_current_version(old(cfg)@, run.sdk@, opt_text(run.old_version)),
        !(ev is Failed) && !(ev is Done && r.0 == SwitchStage::WritingConfig) ==> final(cfg)@ == old(cfg)@,
        switch_stage_ok(*run, r.0),
        switch_steps_left(*run, r.0) < switch_steps_left(*run, stage),
        ev is Done ==> after_success(*run, stage, r.0, r.1),
        ev matches SwitchEvent::Failed { error, os_code } ==> r.0 == (SwitchStage::RollingBack { error, os_code })
            && is_rollback(*run, added_before(*run, stage), r.1),
        stage matches SwitchStage::RollingBack { error, os_code } ==> (ev matches SwitchEvent::RolledBack {
            config_failed,
            paths_failed,
            envs_failed,
            link_failed,
        } ==> r.0 == SwitchStage::Finished && (r.1 matches SwitchAction::Fail { error: e, failures }
            && e@ == switch_error_text(error@, os_code, run.target) && pair_texts(failures@) == rollback_failures_spec(
            config_failed,
            paths_failed,
            envs_failed,
            link_failed,
            run.link@,
        ))),
{
    let n = run.paths.len();
    match ev {
        SwitchEvent::Done => {
            let r = next_after_done(run, stage);
            if matches!(r.0, SwitchStage::WritingConfig) {
                cfg.set_current_version(run.sdk.as_str(), Some(run.version.clone()));
            }
            r
        },
        SwitchEvent::Failed { error, os_code } => {
            let added: usize = match stage {
                SwitchStage::AddingPath { index } => index,
                SwitchStage::WritingConfig => n,
                _ => 0,
            };
            let old_version = match &run.old_version {
                Some(v) => Some(v.clone()),
                None => None,
            };
            cfg.set_current_version(run.sdk.as_str(), old_version);
            let remove_paths = added_newest_first(&run.paths, added);
            let (restore_vars, unset_vars) = env_restore_plan(&run.saved);
            let relink = match &run.old_link {
                Some(t) => Some(t.clone()),
                None => None,
            };
            (SwitchStage::RollingBack { error, os_code }, SwitchAction::RollBack { remove_paths, restore_vars, unset_vars, relink })
        },
        SwitchEvent::RolledBack { config_failed, paths_failed, envs_failed, link_failed } => {
            let (error, os_code) = match stage {
                SwitchStage::RollingBack { error, os_code } => (error, os_code),
                _ => (String::new(), None),
            };
            let mut e = error;
            match os_code {
                Some(c) => {
                    if is_permission_error(c) {
                        append_str(&mut e, ": ");
                        append_str(&mut e, permission_hint(run.target));
                    }
                },
                None => {},
            }
            let failures = rollback_failures(config_failed, paths_failed, envs_failed, link_failed, run.link.as_str());
            (SwitchStage::Finished, SwitchAction::Fail { error: e, failures })
        },
    }
}

/// The stage and action after a successful step.
fn next_after_done(run: &SwitchRun, stage: SwitchStage) -> (r: (SwitchStage, SwitchAction))
    requires
        switch_expects(stage, SwitchEvent::Done),
        switch_stage_ok(*run, stage),
    ensures
        switch_stage_ok(*run, r.0),
        switch_steps_left(*run, r.0) < switch_steps_left(*run, stage),
        after_success(*run, stage, r.0, r.1),
{
    let n = run.paths.len();
    let stage2 = match stage {
        SwitchStage::Linking => {
            if run.set_vars {
                return (SwitchStage::SettingVars, SwitchAction::SetVars);
            }
            SwitchStage::SettingVars
        },
        s => s,
    };
    match stage2 {
        SwitchStage::SettingVars => {
            if n > 0 {
                (SwitchStage::AddingPath { index: 0 }, SwitchAction::AddPath { entry: run.paths[0].clone() })
            } else {
                (SwitchStage::WritingConfig, SwitchAction::WriteConfig)
            }
        },
        SwitchStage::AddingPath { index } => {
            if index + 1 < n {
                (SwitchStage::AddingPath { index: index + 1 }, SwitchAction::AddPath { entry: run.paths[index + 1].clone() })
            } else {
                (SwitchStage::WritingConfig, SwitchAction::WriteConfig)
            }
        },
        _ => (SwitchStage::Finished, SwitchAction::Succeed),
    }
}

/// Whichever step of a switch fails, the configuration kept in memory ends
/// as it was before the switch: before the configuration step it has not
/// changed, and after it the old current version is put back
/// (`reached_config`: the failed step came after the new version was set).
pub proof fn lemma_failed_switch_restores_config(run: SwitchRun, c0: ConfigModel, reached_config: bool)
    requires
        current_version_of(c0, run.sdk@) == opt_text(run.old_version),
    ensures
        with_current_version(
            if reached_config { with_current_version(c0, run.sdk@, Some(run.version@)) } else { c0 },
            run.sdk@,
            opt_text(run.old_version),
        ) == c0,
{
    lemma_current_version_restore(c0, run.sdk@, Some(run.version@));
}

/// The PATH entries a switch added, in the order they are removed on
/// rollback: the last added first.
pub fn rollback_path_order(added: &Vec<String>) -> (r: Vec<String>)
    ensures
        r@.len() == added@.len(),
        forall|i: int| 0 <= i < r@.len() ==> #[trigger] r@[i]@ == added@[added@.len() - 1 - i]@,
{
    let mut r: Vec<String> = Vec::new();
    let mut k: usize = added.len();
    while k > 0
        invariant
            k <= added@.len(),
            r@.len() == added@.len() - k,
            forall|i: int| 0 <= i < r@.len() ==> #[trigger] r@[i]@ == added@[added@.len() - 1 - i]@,
        decreases k,
    {
        k = k - 1;
        r.push(added[k].clone());
    }
    r
}

/// An OS error code that means missing permission: access denied (5),
/// `EACCES` (13), or a privilege not held (1314).
pub fn is_permission_error(code: i32) -> (r: bool)
    ensures
        r == (code == 5 || code == 13 || code == 1314),
{
    code == 5 || code == 13 || code == 1314
}

/// What to tell the user after a permission error.
pub fn permission_hint(target: Target) -> (r: &'static str)
    ensures
        r@ == if target.os == TargetOs::Windows { "run sdkm as administrator"@ } else { "check permissions"@ },
{
    if target.is_windows() { "run sdkm as administrator" } else { "check permissions" }
}

/// What could not be undone by a rollback, with a suggestion for each:
/// the config, the PATH entries, the environment variables, the link, in
/// the order the rollback undoes them.
pub open spec fn rollback_failures_spec(
    config_failed: bool,
    paths_failed: bool,
    envs_failed: bool,
    link_failed: bool,
    link_path: Seq<char>,
) -> Seq<(Seq<char>, Seq<char>)> {
    (if config_failed {
        seq![("Config file may be inconsistent with actual state."@, "Run `sdkm switch <sdk> <version>` again to auto-fix."@)]
    } else {
        Seq::empty()
    }) + (if paths_failed {
        seq![("PATH has stale entries for "@ + link_path + "."@, "Restart your terminal or run `sdkm switch` again."@)]
    } else {
        Seq::empty()
    }) + (if envs_failed {
        seq![("Environment variables (e.g. JAVA_HOME) may point to wrong path."@, "Check your system environment variables settings."@)]
    } else {
        Seq::empty()
    }) + (if link_failed {
        seq![("Symlink at "@ + link_path + " could not be restored — SDK may be unavailable."@,
            "Try `sdkm switch <sdk> <version>` again or check the symlink manually."@)]
    } else {
        Seq::empty()
    })
}

/// What could not be undone by a rollback, with a suggestion for each (see
/// `rollback_failures_spec`).
pub fn rollback_failures(
    config_failed: bool,
    paths_failed: bool,
    envs_failed: bool,
    link_failed: bool,
    link_path: &str,
) -> (r: Vec<(String, String)>)
    ensures
        pair_texts(r@) == rollback_failures_spec(config_failed, paths_failed, envs_failed, link_failed, link_path@),
{
    let mut r: Vec<(String, String)> = Vec::new();
    if config_failed {
        r.push((
            String::from_str("Config file may be inconsistent with actual state."),
            String::from_str("Run `sdkm switch <sdk> <version>` again to auto-fix."),
        ));
    }
    if paths_failed {
        let mut d = String::from_str("PATH has stale entries for ");
        append_str(&mut d, link_path);
        append_str(&mut d, ".");
        r.push((d, String::from_str("Restart your terminal or run `sdkm switch` again.")));
    }
    if envs_failed {
        r.push((
            String::from_str("Environment variables (e.g. JAVA_HOME) may point to wrong path."),
            String::from_str("Check your system environment variables settings."),
        ));
    }
    if link_failed {
        let mut d = String::from_str("Symlink at ");
        append_str(&mut d, link_path);
        append_str(&mut d, " could not be restored — SDK may be unavailable.");
        r.push((d, String::from_str("Try `sdkm switch <sdk> <version>` again or check the symlink manually.")));
    }
    proof {
        assert(pair_texts(r@) =~= rollback_failures_spec(config_failed, paths_failed, envs_failed, link_failed, link_path@));
    }
    r
}

/// The entries not under `root`, in order.
pub open spec fn outside_root(entries: Seq<Seq<char>>, root: Seq<char>) -> Seq<Seq<char>>
    decreases entries.len(),
{
    if entries.len() == 0 {
        Seq::empty()
    } else {
        let r = outside_root(entries.drop_last(), root);
        if starts_with(entries.last(), root) {
            r
        } else {
            r.push(entries.last())
        }
    }
}

/// The PATH entries that may hold a conflicting copy of the SDK: those not
/// under sdkm's link directory, in PATH order.
pub fn conflict_candidates(entries: &Vec<String>, link_root: &str) -> (r: Vec<String>)
    ensures
        string_texts(r@) == outside_root(string_texts(entries@), link_root@),
{
    let ghost es = string_texts(entries@);
    let root = chars_of(link_root);
    let mut r: Vec<String> = Vec::new();
    let mut j: usize = 0;
    while j < entries.len()
        invariant
            j <= entries@.len(),
            root@ == link_root@,
            es == string_texts(entries@),
            string_texts(r@) == outside_root(es.take(j as int), link_root@),
        decreases entries.len() - j,
    {
        assert(es.take(j + 1).drop_last() =~= es.take(j as int));
        assert(es.take(j + 1).last() == entries@[j as int]@);
        let e = chars_of(entries[j].as_str());
        if !starts_with_exec(&e, &root) {
            r.push(entries[j].clone());
            assert(string_texts(r@) =~= outside_root(es.take(j as int), link_root@).push(entries@[j as int]@));
        }
        j = j + 1;
    }
    assert(es.take(entries@.len() as int) =~= es);
    r
}

/// The file names an SDK's executables have on the target: `.exe` and
/// `.cmd` variants on Windows, the bare names elsewhere; per executable, in
/// that order.
pub fn executable_file_names(executables: &Vec<String>, target: Target) -> (r: Vec<String>)
    requires
        executables@.len() * 2 <= usize::MAX,
    ensures
        target.os == TargetOs::Windows ==> r@.len() == 2 * executables@.len() && forall|i: int| 0 <= i < executables@.len() ==> r@[2 * i]@ == executables@[i]@ + ".exe"@ && r@[2 * i + 1]@ == executables@[i]@ + ".cmd"@,
        target.os != TargetOs::Windows ==> r@.len() == executables@.len() && forall|i: int| 0 <= i < executables@.len() ==> #[trigger] r@[i]@ == executables@[i]@,
{
    let windows = target.is_windows();
    let mut r: Vec<String> = Vec::new();
    let mut i: usize = 0;
    while i < executables.len()
        invariant
            i <= executables@.len(),
            executables@.len() * 2 <= usize::MAX,
            windows == (target.os == TargetOs::Windows),
            windows ==> r@.len() == 2 * i && forall|k: int| 0 <= k < i ==> r@[2 * k]@ == executables@[k]@ + ".exe"@ && r@[2 * k + 1]@ == executables@[k]@ + ".cmd"@,
            !windows ==> r@.len() == i && forall|k: int| 0 <= k < i ==> #[trigger] r@[k]@ == executables@[k]@,
        decreases executables.len() - i,
    {
        if windows {
            let mut a = executables[i].clone();
            append_str(&mut a, ".exe");
            let mut b = executables[i].clone();
            append_str(&mut b, ".cmd");
            r.push(a);
            r.push(b);
        } else {
            r.push(executables[i].clone());
        }
        i = i + 1;
    }
    r
}

} // verus!
