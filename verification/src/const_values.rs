//! Names and numbers the host works with.
use vstd::prelude::*;

use crate::path::is_plain_component;

verus! {

/// Directory of the configuration files, below the install directory.
pub const CONFIG_DIR: &'static str = "config";

/// Directory that is scanned for plugins, below the install directory.
pub const PLUGIN_DIR: &'static str = "plugins";

/// File name of the logging configuration.
pub const LOG_CONF: &'static str = "log4rs.toml";

/// File name of the host's own configuration.
pub const GLOBAL_CONF: &'static str = "lantana.toml";

/// Date pattern that prefixes the backup of a broken configuration file.
pub const BROKEN_CONF_BACKUP_PREFIX: &'static str = "Broken_%Y-%m-%d_%H%M%S_";

pub const CONF_BACKUPPED: &'static str = "The configuration file has been backed up.";

pub const CAUSE: &'static str = "Cause";

pub const BACKUP_WRITTEN: &'static str = "Backup written";

/// Symbol every plugin exports as its entry point.
pub const PLUGIN_ENTRY_POINT: &'static str = "iris_entry";

/// Default number of seconds after which a plugin call counts as hanging.
pub const LONG_WAIT_THREAD_SECS: u32 = 30;

/// Period of the hang detector, in milliseconds.
pub const ONE_SEC: u64 = 990;

/// The directory and file names are single components.
pub proof fn lemma_names_are_plain_components()
    ensures
        is_plain_component(CONFIG_DIR@),
        is_plain_component(PLUGIN_DIR@),
        is_plain_component(LOG_CONF@),
{
    reveal_strlit("config");
    reveal_strlit("plugins");
    reveal_strlit("log4rs.toml");
    reveal_strlit(".");
}

} // verus!
