use vite_plus::cli::handler::{
    run_config_source, script_argv, script_plan, RunConfigSource, ScriptParse, ScriptPlan,
    StaticRunField,
};
use vite_plus::cli::resolver::{CacheConfig, InputEntry};
use vite_plus::cli::types::SynthesizableSubcommand;

fn strings(values: &[&str]) -> Vec<String> {
    values.iter().map(|v| v.to_string()).collect()
}

#[test]
fn vp_and_vpr_commands_are_parsed() {
    assert_eq!(script_argv("vp", &strings(&["build", "--watch"])), Some(strings(&["vp", "build", "--watch"])));
    assert_eq!(script_argv("vpr", &strings(&["build"])), Some(strings(&["vp", "run", "build"])));
    assert_eq!(script_argv("node", &strings(&["build"])), None);
    assert_eq!(script_argv("vpx", &[]), None);
}

#[test]
fn check_runs_as_a_cached_subprocess() {
    let plan = script_plan(ScriptParse::Synthesizable(SynthesizableSubcommand::Check {
        fix: false,
        no_fmt: false,
        no_lint: false,
        no_error_on_unmatched_pattern: false,
        paths: Vec::new(),
    }));
    match plan {
        ScriptPlan::Subprocess(CacheConfig::Enabled { env, input }) => {
            assert_eq!(env, Some(strings(&["OXLINT_TSGOLINT_PATH"])));
            let input = input.unwrap();
            assert_eq!(input.len(), 5);
            assert!(matches!(input[0], InputEntry::Auto));
        }
        other => panic!("unexpected plan {other:?}"),
    }
}

#[test]
fn other_commands_follow_their_kind() {
    assert!(matches!(
        script_plan(ScriptParse::InvalidSubcommand),
        ScriptPlan::Subprocess(CacheConfig::Disabled)
    ));
    assert!(matches!(
        script_plan(ScriptParse::PackageManager),
        ScriptPlan::Subprocess(CacheConfig::Disabled)
    ));
    assert!(matches!(script_plan(ScriptParse::Exec), ScriptPlan::Subprocess(CacheConfig::Disabled)));
    assert!(matches!(script_plan(ScriptParse::ViteTask), ScriptPlan::ViteTask));
    assert!(matches!(script_plan(ScriptParse::Failed), ScriptPlan::Error));
    let build = SynthesizableSubcommand::Build { args: strings(&["--mode", "x"]) };
    match script_plan(ScriptParse::Synthesizable(build)) {
        ScriptPlan::Resolve(SynthesizableSubcommand::Build { args }) => {
            assert_eq!(args, strings(&["--mode", "x"]))
        }
        other => panic!("unexpected plan {other:?}"),
    }
}

#[test]
fn run_config_comes_from_the_static_value_when_there_is_one() {
    assert_eq!(run_config_source(StaticRunField::Static), RunConfigSource::StaticValue);
    assert_eq!(run_config_source(StaticRunField::NonStatic), RunConfigSource::Evaluated);
    assert_eq!(run_config_source(StaticRunField::Absent), RunConfigSource::Missing);
}
