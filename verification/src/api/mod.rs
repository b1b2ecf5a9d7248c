//! What the host offers to its plugins.
pub mod core_services_impl;
