//! The `vp` command line: its built-in subcommands, the help and flag rules
//! around them, where an app command runs, and what each subcommand resolves
//! to.
pub mod app_target;
pub mod direct;
pub mod handler;
pub mod help;
pub mod resolver;
pub mod types;
