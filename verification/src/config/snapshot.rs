//! The state kept before a configuration change, to roll back a failed write.

use vstd::prelude::*;
use crate::config::SdkmConfig;

verus! {

/// The configuration before a change: in memory and as the file's text.
pub struct ConfigSnapshot {
    /// The whole configuration, to be written back.
    pub old_config: SdkmConfig,
    /// The file's text, restored as it was when writing the configuration fails.
    pub old_file_content: String,
}

} // verus!
