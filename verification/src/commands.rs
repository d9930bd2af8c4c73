//! Descriptors of the configuration debug commands: their names, help text
//! and capability flags, read by the command dispatcher.

pub mod dump_config;
pub mod refresh_config;
