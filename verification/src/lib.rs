//! Core of a plugin host: the paths it derives from its install location,
//! the watch list of plugin calls that take too long, and the decisions of
//! its message loops.

pub mod api;
pub mod builder;
pub mod common;
pub mod const_values;
pub mod dispatch;
pub mod load_config;
pub mod path;
