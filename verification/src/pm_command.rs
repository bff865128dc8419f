//! `vp pm`: the package-manager utilities run in a directory, and how a
//! `vp pm config` command becomes the package manager's `config` call.
use vstd::prelude::*;

verus! {

/// The `vp pm` command in a working directory.
#[derive(Debug, Clone, PartialEq, Eq)]
pub struct PmCommand {
    pub cwd: String,
}

impl PmCommand {
    pub fn new(cwd: String) -> (res: Self)
        ensures
            res.cwd == cwd,
    {
        PmCommand { cwd }
    }
}

/// The `vp pm config` subcommands.
#[derive(Debug, Clone, PartialEq, Eq)]
pub enum ConfigCommand {
    List { json: bool, global: bool, location: Option<String> },
    Get { key: String, json: bool, global: bool, location: Option<String> },
    Assign { key: String, value: String, json: bool, global: bool, location: Option<String> },
    Delete { key: String, global: bool, location: Option<String> },
}

/// The package manager's `config` call: the subcommand, its key and value,
/// JSON output, and the config location.
#[derive(Debug, Clone, PartialEq, Eq)]
pub struct ConfigOptions {
    pub subcommand: &'static str,
    pub key: Option<String>,
    pub value: Option<String>,
    pub json: bool,
    pub location: Option<String>,
}

/// `--global` selects the global location; otherwise `--location`, if any.
pub open spec fn location_spec(global: bool, location: Option<String>) -> Option<Seq<char>> {
    if global {
        Some("global"@)
    } else {
        match location {
            Some(l) => Some(l@),
            None => None,
        }
    }
}

pub open spec fn opt_text(o: Option<String>) -> Option<Seq<char>> {
    match o {
        Some(s) => Some(s@),
        None => None,
    }
}

fn location_for(global: bool, location: Option<String>) -> (res: Option<String>)
    ensures
        opt_text(res) == location_spec(global, location),
{
    if global {
        Some(String::from_str("global"))
    } else {
        location
    }
}

pub fn config_options(command: ConfigCommand) -> (res: ConfigOptions)
    ensures
        match command {
            ConfigCommand::List { json, global, location } => res.subcommand@ == "list"@
                && res.key is None && res.value is None && res.json == json && opt_text(res.location)
                == location_spec(global, location),
            ConfigCommand::Get { key, json, global, location } => res.subcommand@ == "get"@
                && res.key == Some(key) && res.value is None && res.json == json && opt_text(
                res.location,
            ) == location_spec(global, location),
            ConfigCommand::Assign { key, value, json, global, location } => res.subcommand@ == "set"@
                && res.key == Some(key) && res.value == Some(value) && res.json == json && opt_text(
                res.location,
            ) == location_spec(global, location),
            ConfigCommand::Delete { key, global, location } => res.subcommand@ == "delete"@
                && res.key == Some(key) && res.value is None && !res.json && opt_text(res.location)
                == location_spec(global, location),
        },
{
    match command {
        ConfigCommand::List { json, global, location } => ConfigOptions {
            subcommand: "list",
            key: None,
            value: None,
            json,
            location: location_for(global, location),
        },
        ConfigCommand::Get { key, json, global, location } => ConfigOptions {
            subcommand: "get",
            key: Some(key),
            value: None,
            json,
            location: location_for(global, location),
        },
        ConfigCommand::Assign { key, value, json, global, location } => ConfigOptions {
            subcommand: "set",
            key: Some(key),
            value: Some(value),
            json,
            location: location_for(global, location),
        },
        ConfigCommand::Delete { key, global, location } => ConfigOptions {
            subcommand: "delete",
            key: Some(key),
            value: None,
            json: false,
            location: location_for(global, location),
        },
    }
}

} // verus!
