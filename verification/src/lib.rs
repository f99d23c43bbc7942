//! The decisions of sdkm, a manager of SDK versions: configuration keys and
//! values, version discovery and fuzzy matching, release-asset selection,
//! the install, switch and uninstall plans with their rollbacks, shell
//! scripts and profile edits, the interactive selectors as state machines,
//! and the caches of hook scripts and directory sizes. Files, network,
//! terminal and processes are left to the program around the library.

pub mod cli;
pub mod config;
pub mod doctor;
pub mod env;
pub mod hook_cache;
pub mod init;
pub mod install;
pub mod list;
pub mod manager;
pub mod order;
pub mod platform;
pub mod project_config;
pub mod self_update;
pub mod shell;
pub mod size_cache;
pub mod switch;
pub mod text;
pub mod tui;
pub mod uninstall;
pub mod use_cmd;
pub mod version;
