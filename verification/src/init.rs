//! Decisions of `sdkm init`: which confirmations are asked, and whether the
//! default configuration is written. Creating directories and files happens
//! at the edge of the program.

use vstd::prelude::*;
use crate::text::append_str;

verus! {

/// What `sdkm init` does before creating anything.
#[derive(Clone, Copy, Debug, PartialEq, Eq, Structural)]
pub struct InitPlan {
    /// Ask whether to go on in a directory that does not look dedicated to sdkm.
    pub confirm_location: bool,
    /// Ask whether to overwrite the existing configuration.
    pub confirm_overwrite: bool,
    /// Say that sdkm is initialized already (missing directories are still created).
    pub already_initialized: bool,
    /// Write the default configuration.
    pub write_config: bool,
}

/// Plans an init: without `force`, an existing configuration is kept (only
/// missing directories are created) and an unusual location is confirmed;
/// with `force`, an existing configuration is overwritten after confirmation.
pub fn init_plan(force: bool, config_existed: bool, dedicated_dir: bool) -> (p: InitPlan)
    ensures
        p.confirm_location == (!force && !dedicated_dir),
        p.confirm_overwrite == (force && config_existed),
        p.already_initialized == (config_existed && !force),
        p.write_config == (!config_existed || force),
{
    InitPlan {
        confirm_location: !force && !dedicated_dir,
        confirm_overwrite: force && config_existed,
        already_initialized: config_existed && !force,
        write_config: !config_existed || force,
    }
}

/// The message when the link directory cannot be created.
pub fn link_dir_error(dir: &str, reason: &str) -> (m: String)
    ensures
        m@ == "Failed to create symlink directory '"@ + dir@ + "': "@ + reason@
            + "\n  Tip: run `sdkm config set symlink_dir <writable_dir>` to use a custom location, then `sdkm init` again."@,
{
    let mut m = String::from_str("Failed to create symlink directory '");
    append_str(&mut m, dir);
    append_str(&mut m, "': ");
    append_str(&mut m, reason);
    append_str(
        &mut m,
        "\n  Tip: run `sdkm config set symlink_dir <writable_dir>` to use a custom location, then `sdkm init` again.",
    );
    m
}

} // verus!
