//! Names used to locate the configuration on disk.
//!
//! The directory lookup, reading and writing live with the application; the
//! library only fixes the names that make up the paths.

use vstd::prelude::*;

verus! {

/// Application name used for the config directory.
pub const APP_NAME: &'static str = "ferrite";

/// Configuration file name.
pub const CONFIG_FILE_NAME: &'static str = "config.json";

/// Backup configuration file name (used during atomic writes).
pub const CONFIG_BACKUP_NAME: &'static str = "config.json.bak";

/// Portable mode folder name (when present next to the executable, enables
/// portable mode).
pub const PORTABLE_DIR_NAME: &'static str = "portable";

} // verus!
