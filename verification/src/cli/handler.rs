//! `vp` and `vpr` commands inside task scripts: which are handed to the
//! tools directly (in the session) and with what cache settings, and where
//! a package's run configuration is read from.
use vstd::prelude::*;

use crate::cli::resolver::{cache_view, check_cache_inputs, check_inputs, CacheConfig, CacheModel};
use crate::cli::types::SynthesizableSubcommand;
use crate::pm::strs;
use crate::text::str_eq;

verus! {

/// The arguments a script command is parsed from: `vp` and its own
/// arguments, with `run` in front for `vpr` (short for `vp run`); `None`
/// for any other program, which runs verbatim.
pub open spec fn script_argv_spec(program: Seq<char>, args: Seq<Seq<char>>) -> Option<Seq<Seq<char>>> {
    if program == "vp"@ {
        Some(seq!["vp"@] + args)
    } else if program == "vpr"@ {
        Some(seq!["vp"@, "run"@] + args)
    } else {
        None
    }
}

pub fn script_argv(program: &str, args: &[String]) -> (res: Option<Vec<String>>)
    ensures
        match res {
            Some(v) => script_argv_spec(program@, strs(args@)) == Some(strs(v@)),
            None => script_argv_spec(program@, strs(args@)) is None,
        },
{
    let is_vp = str_eq(program, "vp");
    let is_vpr = str_eq(program, "vpr");
    if !is_vp && !is_vpr {
        return None;
    }
    let mut v: Vec<String> = Vec::new();
    v.push(String::from_str("vp"));
    if is_vpr {
        v.push(String::from_str("run"));
    }
    let ghost head = strs(v@);
    let mut k: usize = 0;
    while k < args.len()
        invariant
            k <= args@.len(),
            strs(v@) == head + strs(args@).take(k as int),
        decreases args@.len() - k,
    {
        let ghost before = v@;
        v.push(args[k].clone());
        proof {
            assert(strs(v@) =~= strs(before).push(args@[k as int]@));
            assert(strs(args@).take(k + 1) =~= strs(args@).take(k as int).push(args@[k as int]@));
        }
        k += 1;
    }
    proof {
        assert(strs(args@).take(args@.len() as int) =~= strs(args@));
        reveal_strlit("vp");
        reveal_strlit("vpr");
        assert("vp"@.len() == 2 && "vpr"@.len() == 3);
        if is_vp {
            assert(!is_vpr);
            assert(head =~= seq!["vp"@]);
        } else {
            assert(head =~= seq!["vp"@, "run"@]);
            reveal_strlit("vp");
            reveal_strlit("vpr");
        }
    }
    Some(v)
}

/// What parsing a script command's arguments gave.
#[derive(Debug, Clone)]
pub enum ScriptParse {
    /// The first argument names no subcommand (it may be a script's own
    /// program).
    InvalidSubcommand,
    /// Another parse error.
    Failed,
    /// A built-in subcommand.
    Synthesizable(SynthesizableSubcommand),
    /// `run` or `cache`, handled by the task runner.
    ViteTask,
    /// A package-manager command.
    PackageManager,
    /// `vp exec`.
    Exec,
}

/// How the task runner handles a script command.
#[derive(Debug, Clone)]
pub enum ScriptPlan {
    /// As a subprocess, with these cache settings.
    Subprocess(CacheConfig),
    /// Resolved to its tool and run in the session.
    Resolve(SynthesizableSubcommand),
    /// As a task-runner command.
    ViteTask,
    /// The parse error is reported.
    Error,
}

/// The cache of `vp check` run from a script: keyed on
/// `OXLINT_TSGOLINT_PATH`, with the check inputs.
pub open spec fn check_script_cache() -> CacheModel {
    CacheModel::Enabled { env: Some(seq!["OXLINT_TSGOLINT_PATH"@]), input: Some(check_inputs()) }
}

/// `check` (a composite of formatter and linter), package-manager commands,
/// `exec` and unknown subcommands run as uncached subprocesses (`check`
/// cached on its inputs); other built-ins resolve to their tools.
pub fn script_plan(parsed: ScriptParse) -> (res: ScriptPlan)
    ensures
        match parsed {
            ScriptParse::InvalidSubcommand | ScriptParse::PackageManager | ScriptParse::Exec => res matches ScriptPlan::Subprocess(c)
                && cache_view(c) == CacheModel::Disabled,
            ScriptParse::Failed => res is Error,
            ScriptParse::ViteTask => res is ViteTask,
            ScriptParse::Synthesizable(s) => match s {
                SynthesizableSubcommand::Check { .. } => res matches ScriptPlan::Subprocess(c)
                    && cache_view(c) == check_script_cache(),
                _ => res == ScriptPlan::Resolve(s),
            },
        },
{
    match parsed {
        ScriptParse::InvalidSubcommand | ScriptParse::PackageManager | ScriptParse::Exec => {
            ScriptPlan::Subprocess(CacheConfig::Disabled)
        },
        ScriptParse::Failed => ScriptPlan::Error,
        ScriptParse::ViteTask => ScriptPlan::ViteTask,
        ScriptParse::Synthesizable(s) => match s {
            SynthesizableSubcommand::Check { .. } => {
                let mut env: Vec<String> = Vec::new();
                env.push(String::from_str("OXLINT_TSGOLINT_PATH"));
                let input = check_cache_inputs();
                let c = CacheConfig::Enabled { env: Some(env), input: Some(input) };
                proof {
                    assert(strs(env@) =~= seq!["OXLINT_TSGOLINT_PATH"@]);
                }
                ScriptPlan::Subprocess(c)
            },
            _ => ScriptPlan::Resolve(s),
        },
    }
}

/// What reading `vite.config` without running it found of the `run` field.
#[derive(Debug, Clone, Copy, PartialEq, Eq)]
pub enum StaticRunField {
    /// A static value.
    Static,
    /// A value that only evaluating the config gives (or a spread that may
    /// hold one).
    NonStatic,
    /// No `run` field.
    Absent,
}

/// Where a package's run configuration comes from.
#[derive(Debug, Clone, Copy, PartialEq, Eq)]
pub enum RunConfigSource {
    /// The statically read value.
    StaticValue,
    /// The config evaluated on the JavaScript side (its `run`, or the
    /// default when it has none).
    Evaluated,
    /// There is none.
    Missing,
}

pub fn run_config_source(field: StaticRunField) -> (res: RunConfigSource)
    ensures
        res == match field {
            StaticRunField::Static => RunConfigSource::StaticValue,
            StaticRunField::NonStatic => RunConfigSource::Evaluated,
            StaticRunField::Absent => RunConfigSource::Missing,
        },
{
    match field {
        StaticRunField::Static => RunConfigSource::StaticValue,
        StaticRunField::NonStatic => RunConfigSource::Evaluated,
        StaticRunField::Absent => RunConfigSource::Missing,
    }
}

} // verus!
