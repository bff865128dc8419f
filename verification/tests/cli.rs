use vite_plus::cli::app_target::app_command_parts;
use vite_plus::cli::help::{
    has_flag_before_terminator, normalize_help_args, should_prepend_vitest_run, should_print_help,
    should_suppress_subcommand_stdout,
};
use vite_plus::cli::types::SynthesizableSubcommand;

#[test]
fn cli_test_without_args_defaults_to_run_mode() {
    assert!(should_prepend_vitest_run(&[]));
}

#[test]
fn cli_test_with_filters_defaults_to_run_mode() {
    assert!(should_prepend_vitest_run(&["src/foo.test.ts".to_string()]));
}

#[test]
fn cli_test_with_options_defaults_to_run_mode() {
    assert!(should_prepend_vitest_run(&["--coverage".to_string()]));
}

#[test]
fn cli_test_with_run_subcommand_does_not_prepend_run() {
    assert!(!should_prepend_vitest_run(&["run".to_string(), "--coverage".to_string()]));
}

#[test]
fn cli_test_with_watch_subcommand_does_not_prepend_run() {
    assert!(!should_prepend_vitest_run(&["watch".to_string()]));
}

#[test]
fn cli_test_with_watch_flag_does_not_prepend_run() {
    assert!(!should_prepend_vitest_run(&["--watch".to_string()]));
    assert!(!should_prepend_vitest_run(&["-w".to_string()]));
}

#[test]
fn cli_test_with_help_flag_does_not_prepend_run() {
    assert!(!should_prepend_vitest_run(&["--help".to_string()]));
    assert!(!should_prepend_vitest_run(&["-h".to_string()]));
}

#[test]
fn cli_test_with_explicit_run_flag_does_not_prepend_run() {
    assert!(!should_prepend_vitest_run(&["--run".to_string(), "--coverage".to_string()]));
}

#[test]
fn cli_test_ignores_flags_after_option_terminator() {
    assert!(should_prepend_vitest_run(&[
        "--".to_string(),
        "--watch".to_string(),
        "src/foo.test.ts".to_string(),
    ]));
}

#[test]
fn cli_lint_init_suppresses_stdout() {
    let subcommand = SynthesizableSubcommand::Lint { args: vec!["--init".to_string()] };
    assert!(should_suppress_subcommand_stdout(&subcommand));
}

#[test]
fn cli_fmt_migrate_suppresses_stdout() {
    let subcommand = SynthesizableSubcommand::Fmt { args: vec!["--migrate=prettier".to_string()] };
    assert!(should_suppress_subcommand_stdout(&subcommand));
}

#[test]
fn cli_normal_lint_does_not_suppress_stdout() {
    let subcommand = SynthesizableSubcommand::Lint { args: vec!["src/index.ts".to_string()] };
    assert!(!should_suppress_subcommand_stdout(&subcommand));
}

#[test]
fn help_test_without_args_defaults_to_run_mode() {
    assert!(should_prepend_vitest_run(&[]));
}

#[test]
fn help_test_with_filters_defaults_to_run_mode() {
    assert!(should_prepend_vitest_run(&["src/foo.test.ts".to_string()]));
}

#[test]
fn help_test_with_options_defaults_to_run_mode() {
    assert!(should_prepend_vitest_run(&["--coverage".to_string()]));
}

#[test]
fn help_test_with_run_subcommand_does_not_prepend_run() {
    assert!(!should_prepend_vitest_run(&["run".to_string(), "--coverage".to_string()]));
}

#[test]
fn help_test_with_watch_subcommand_does_not_prepend_run() {
    assert!(!should_prepend_vitest_run(&["watch".to_string()]));
}

#[test]
fn help_test_with_watch_flag_does_not_prepend_run() {
    assert!(!should_prepend_vitest_run(&["--watch".to_string()]));
    assert!(!should_prepend_vitest_run(&["-w".to_string()]));
}

#[test]
fn help_test_with_help_flag_does_not_prepend_run() {
    assert!(!should_prepend_vitest_run(&["--help".to_string()]));
    assert!(!should_prepend_vitest_run(&["-h".to_string()]));
}

#[test]
fn help_test_with_explicit_run_flag_does_not_prepend_run() {
    assert!(!should_prepend_vitest_run(&["--run".to_string(), "--coverage".to_string()]));
}

#[test]
fn help_test_ignores_flags_after_option_terminator() {
    assert!(should_prepend_vitest_run(&[
        "--".to_string(),
        "--watch".to_string(),
        "src/foo.test.ts".to_string(),
    ]));
}

#[test]
fn help_lint_init_suppresses_stdout() {
    let subcommand = SynthesizableSubcommand::Lint { args: vec!["--init".to_string()] };
    assert!(should_suppress_subcommand_stdout(&subcommand));
}

#[test]
fn help_fmt_migrate_suppresses_stdout() {
    let subcommand = SynthesizableSubcommand::Fmt { args: vec!["--migrate=prettier".to_string()] };
    assert!(should_suppress_subcommand_stdout(&subcommand));
}

#[test]
fn help_normal_lint_does_not_suppress_stdout() {
    let subcommand = SynthesizableSubcommand::Lint { args: vec!["src/index.ts".to_string()] };
    assert!(!should_suppress_subcommand_stdout(&subcommand));
}

#[test]
fn only_app_commands_elicit() {
    for (subcommand, expected) in [
        (SynthesizableSubcommand::Dev { args: vec![] }, Some("dev")),
        (SynthesizableSubcommand::Build { args: vec![] }, Some("build")),
        (SynthesizableSubcommand::Preview { args: vec![] }, Some("preview")),
        (SynthesizableSubcommand::Pack { args: vec![] }, Some("pack")),
        (SynthesizableSubcommand::Lint { args: vec![] }, None),
        (SynthesizableSubcommand::Test { args: vec![] }, None),
    ] {
        assert_eq!(app_command_parts(&subcommand).map(|(name, _)| name), expected);
    }
}

fn strings(v: &[&str]) -> Vec<String> {
    v.iter().map(|s| s.to_string()).collect()
}

#[test]
fn help_alone_asks_for_general_help() {
    assert_eq!(normalize_help_args(strings(&["help"])), strings(&["--help"]));
}

#[test]
fn help_with_command_asks_for_command_help() {
    assert_eq!(
        normalize_help_args(strings(&["help", "build", "--mode", "x"])),
        strings(&["build", "--help", "--mode", "x"])
    );
    assert_eq!(normalize_help_args(strings(&["build", "help"])), strings(&["build", "help"]));
}

#[test]
fn general_help_shows_for_no_arguments_or_help_flag() {
    assert!(should_print_help(&[]));
    assert!(should_print_help(&strings(&["-h"])));
    assert!(should_print_help(&strings(&["--help"])));
    assert!(!should_print_help(&strings(&["build", "--help"])));
    assert!(!should_print_help(&strings(&["build"])));
}

#[test]
fn flags_after_terminator_do_not_count() {
    assert!(has_flag_before_terminator(&strings(&["--init"]), "--init"));
    assert!(has_flag_before_terminator(&strings(&["--migrate=biome"]), "--migrate"));
    assert!(!has_flag_before_terminator(&strings(&["--", "--init"]), "--init"));
    assert!(!has_flag_before_terminator(&strings(&["--initial"]), "--init"));
}

#[test]
fn fmt_init_suppresses_stdout_but_build_never_does() {
    assert!(should_suppress_subcommand_stdout(&SynthesizableSubcommand::Fmt { args: strings(&["--init"]) }));
    assert!(!should_suppress_subcommand_stdout(&SynthesizableSubcommand::Build { args: strings(&["--init"]) }));
    assert!(!should_suppress_subcommand_stdout(&SynthesizableSubcommand::Lint { args: strings(&["--", "--init"]) }));
}

#[test]
fn command_names_follow_subcommands() {
    assert_eq!(SynthesizableSubcommand::Install { args: vec![] }.command_name(), "install");
    assert_eq!(
        SynthesizableSubcommand::Check {
            fix: false,
            no_fmt: false,
            no_lint: false,
            no_error_on_unmatched_pattern: false,
            paths: vec![],
        }
        .command_name(),
        "check"
    );
    assert_eq!(SynthesizableSubcommand::Test { args: vec![] }.command_name(), "test");
}
