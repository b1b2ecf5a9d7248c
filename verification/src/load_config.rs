//! The host's configuration: where its files are, and its (so far empty)
//! set of settings.
use vstd::prelude::*;

use crate::const_values::{lemma_names_are_plain_components, CONFIG_DIR};
use crate::path::{lemma_plain_component, FsPath, PathView};

verus! {

/// The path of configuration file `file` in the configuration directory,
/// relative to the working directory (or `file` itself when it starts at
/// the root).
pub fn get_configpath(file: &str) -> (r: FsPath)
    ensures
        r@ == (PathView {
            prefix: Seq::empty(),
            absolute: false,
            components: seq![CONFIG_DIR@],
        }).push_str(file@),
{
    proof {
        lemma_names_are_plain_components();
        lemma_plain_component(
            PathView { prefix: Seq::empty(), absolute: false, components: Seq::empty() },
            CONFIG_DIR@,
        );
    }
    let mut path = FsPath::parse(CONFIG_DIR);
    path.push(file);
    path
}

/// Why a configuration file was set aside.
#[derive(Debug, Clone, Copy, PartialEq, Eq, Structural)]
pub enum CauseKind {
    BrokenFile,
}

/// The host's settings.
#[derive(Debug, Clone, Copy, PartialEq, Eq, Structural)]
pub struct GlobalConfig {}

/// What to do with the outcome of reading the configuration file.
pub enum ConfigLoad {
    /// The file was read: use these settings.
    Use(Box<GlobalConfig>),
    /// The file could not be read: set it aside for this cause, write these
    /// default settings in its place, and read it again.
    Recover { cause: CauseKind, default: GlobalConfig },
}

impl GlobalConfig {
    /// Decides on the outcome of reading the configuration file: settings
    /// that were read are used; a file that could not be read is backed up
    /// as broken and replaced by the default settings.
    pub fn after_load<E>(loaded: Result<Box<GlobalConfig>, E>) -> (r: ConfigLoad)
        ensures
            match loaded {
                Ok(config) => r == ConfigLoad::Use(config),
                Err(_) => r == (ConfigLoad::Recover {
                    cause: CauseKind::BrokenFile,
                    default: GlobalConfig {},
                }),
            },
    {
        match loaded {
            Ok(config) => ConfigLoad::Use(config),
            Err(_) => ConfigLoad::Recover { cause: CauseKind::BrokenFile, default: GlobalConfig::new() },
        }
    }

    pub fn new() -> (r: Self)
        ensures
            r == (GlobalConfig {}),
    {
        GlobalConfig {}
    }
}

} // verus!
