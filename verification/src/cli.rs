//! The command line: the arguments of each command, and the checks and
//! choices made on them before any work starts. Parsing the command line and
//! running the commands happen at the edge of the program.

use vstd::prelude::*;
use crate::list::{check_list_args, ListError};
use crate::text::append_str;

verus! {

/// `sdkm current [SDK]`: the active version of one SDK, or of all.
pub struct CurrentHandler {
    pub sdk: Option<String>,
}

/// `sdkm doctor`: the diagnostic report.
pub struct DoctorHandler;

/// `sdkm env [--shell SHELL]`: the env script of the current directory.
pub struct EnvHandler {
    pub shell: Option<String>,
}

/// `sdkm hook [SHELL]`: the hook registration script.
pub struct HookHandler {
    pub shell: Option<String>,
}

/// `sdkm init [--force]`.
pub struct InitHandler {
    pub force: bool,
}

/// `sdkm install SDK VERSION [--no-switch]`.
pub struct InstallHandler {
    pub sdk: String,
    pub sdk_version: String,
    pub no_switch: bool,
}

impl InstallHandler {
    /// An installed version is switched to unless `--no-switch` is given.
    pub fn auto_switch(&self) -> (r: bool)
        ensures
            r == !self.no_switch,
    {
        !self.no_switch
    }
}

/// `sdkm list [SDK] [-r] [-l LIMIT]`.
pub struct ListHandler {
    pub sdk: Option<String>,
    pub remote: bool,
    pub limit: u32,
}

/// What a listing shows.
pub enum ListMode {
    /// Browse all registered SDKs (an overview when not on a terminal).
    BrowseAll,
    /// The installed versions of an SDK.
    Local { sdk: String },
    /// The remote versions of an SDK.
    Remote { sdk: String },
}

/// The default number of remote versions shown.
pub const DEFAULT_LIST_LIMIT: u32 = 20;

impl ListHandler {
    /// Checks the arguments and tells what to list: a positive limit is
    /// needed, and a remote listing needs an SDK.
    pub fn mode(&self) -> (r: Result<ListMode, ListError>)
        ensures
            self.limit == 0 ==> r matches Err(ListError::ZeroLimit),
            self.limit > 0 && self.remote && self.sdk is None ==> r matches Err(ListError::MissingSdk),
            self.limit > 0 && self.sdk is None && !self.remote ==> r matches Ok(ListMode::BrowseAll),
            self.limit > 0 && (self.sdk matches Some(s) && !self.remote) ==> (r matches Ok(ListMode::Local { sdk }) && sdk@ == self.sdk->0@),
            self.limit > 0 && (self.sdk matches Some(s) && self.remote) ==> (r matches Ok(ListMode::Remote { sdk }) && sdk@ == self.sdk->0@),
    {
        match check_list_args(self.sdk.is_some(), self.remote, self.limit) {
            Err(e) => Err(e),
            Ok(()) => match &self.sdk {
                None => Ok(ListMode::BrowseAll),
                Some(s) => if self.remote {
                    Ok(ListMode::Remote { sdk: s.clone() })
                } else {
                    Ok(ListMode::Local { sdk: s.clone() })
                },
            },
        }
    }
}

/// The message shown when an SDK picked in the browser has no installed version.
pub fn no_installed_versions_msg(sdk: &str) -> (m: String)
    ensures
        m@ == sdk@ + " has no installed versions"@,
{
    let mut m = String::from_str(sdk);
    append_str(&mut m, " has no installed versions");
    m
}

/// `sdkm self uninstall`.
pub struct SelfUninstallHandler;

/// The confirmation asked before a self-uninstall.
pub fn self_uninstall_prompt() -> (r: &'static str)
    ensures
        r@ == "This will clean up ALL managed SDK environments (symlink/PATH/env/current)\nand remove the sdkm home directory (store/links/config/cache).\nThe sdkm binary itself must be removed manually.\nContinue?"@,
{
    "This will clean up ALL managed SDK environments (symlink/PATH/env/current)\nand remove the sdkm home directory (store/links/config/cache).\nThe sdkm binary itself must be removed manually.\nContinue?"
}

/// `sdkm self update [--check] [--rollback]`.
pub struct SelfUpdateHandler {
    pub check: bool,
    pub rollback: bool,
}

/// A command line the commands refuse.
pub enum CliError {
    /// `--check` and `--rollback` were both given.
    CheckWithRollback,
    /// The user declined a self-uninstall.
    SelfUninstallCancelled,
}

impl CliError {
    /// The error message.
    pub fn message(&self) -> (m: String)
        ensures
            m@ == match *self {
                CliError::CheckWithRollback => "`--check` and `--rollback` are mutually exclusive"@,
                CliError::SelfUninstallCancelled => "Self-uninstall cancelled by user"@,
            },
    {
        match self {
            CliError::CheckWithRollback => String::from_str("`--check` and `--rollback` are mutually exclusive"),
            CliError::SelfUninstallCancelled => String::from_str("Self-uninstall cancelled by user"),
        }
    }
}

impl SelfUpdateHandler {
    /// `--check` and `--rollback` exclude each other.
    pub fn check_args(&self) -> (r: Result<(), CliError>)
        ensures
            (self.check && self.rollback) ==> r matches Err(CliError::CheckWithRollback),
            !(self.check && self.rollback) ==> r is Ok,
    {
        if self.check && self.rollback {
            Err(CliError::CheckWithRollback)
        } else {
            Ok(())
        }
    }
}

/// `sdkm self ...`.
pub enum SelfSub {
    Uninstall(SelfUninstallHandler),
    Update(SelfUpdateHandler),
}

/// `sdkm self`.
pub struct SelfHandler {
    pub command: SelfSub,
}

/// `sdkm switch SDK VERSION`.
pub struct SwitchHandler {
    pub sdk: String,
    pub sdk_version: String,
}

/// `sdkm uninstall SDK VERSION [-y]`.
pub struct UninstallHandler {
    pub sdk: String,
    pub sdk_version: String,
    pub yes: bool,
}

/// `sdkm use SDK VERSION [--shell]`: pin for the project, or for the shell session.
pub struct UseHandler {
    pub sdk: String,
    pub sdk_version: String,
    pub shell: bool,
}

/// The commands.
pub enum Commands {
    Init(InitHandler),
    Install(InstallHandler),
    Uninstall(UninstallHandler),
    List(ListHandler),
    Switch(SwitchHandler),
    Use(UseHandler),
    Env(EnvHandler),
    Hook(HookHandler),
    Current(CurrentHandler),
    Doctor(DoctorHandler),
    Self_(SelfHandler),
}

/// The command line of sdkm.
pub struct SdkMateCli {
    pub command: Commands,
}

/// A command that can be run.
pub trait CommandHandler {
    /// Runs the command; the error is the message shown.
    fn run(&self) -> Result<(), String>;
}

} // verus!
