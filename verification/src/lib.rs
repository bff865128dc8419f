//! Verified core logic of the Vite+ command-line tooling.
#![allow(unused_imports)]

pub mod text;
pub mod cmdline;
pub mod similarity;
pub mod pm;
pub mod install;
pub mod dirs;
pub mod toolchain;
pub mod check;
pub mod cli;
pub mod js_args;
pub mod path_env;
pub mod path_list;
pub mod tls;
pub mod trampoline;
pub mod exec;
pub mod hash;
pub mod shim;
pub mod pm_command;
pub mod pm_cli;
pub mod download;
