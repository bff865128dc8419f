use vite_plus::js_args::{
    agent_option, boolean_option, config_args, config_outcome, create_args, editor_option,
    error_kind_name, hooks_args, hooks_outcome, migrate_args, parse_concurrent, parse_error,
    parse_package_manager_value, staged_args, staged_outcome, AgentOption, CliErrorKind,
    Concurrent, ConcurrentValue, ConfigFlags, CreateFlags, EditorOption, HooksCommand,
    MigrateFlags, ParseConfigArgsOutcome, ParseHooksArgsOutcome, ParseResult,
    ParseStagedArgsOutcome, StagedFlags,
};

const CONCURRENT_VALUE_ERROR: &str = "use true, false, or an integer from 1 through 4294967295";

fn strings(values: &[&str]) -> Vec<String> {
    values.iter().map(|v| v.to_string()).collect()
}

fn no_staged_flags() -> StagedFlags {
    StagedFlags {
        allow_empty: false,
        concurrent: None,
        no_concurrent: false,
        continue_on_error: false,
        cwd: None,
        debug: false,
        diff: None,
        diff_filter: None,
        fail_on_changes: false,
        hide_partially_staged: false,
        hide_unstaged: false,
        no_stash: false,
        quiet: false,
        relative: false,
        revert: false,
        verbose: false,
    }
}

fn no_create_flags() -> CreateFlags {
    CreateFlags {
        template: None,
        directory: None,
        agent: Vec::new(),
        no_agent: false,
        editor: Vec::new(),
        no_editor: false,
        git: false,
        no_git: false,
        hooks: false,
        no_hooks: false,
        package_manager: None,
        approve_builds: false,
        verbose: false,
        interactive: false,
        no_interactive: false,
        list: false,
        template_args: Vec::new(),
    }
}

fn no_migrate_flags() -> MigrateFlags {
    MigrateFlags {
        path: None,
        agent: Vec::new(),
        no_agent: false,
        editor: Vec::new(),
        no_editor: false,
        hooks: false,
        no_hooks: false,
        interactive: false,
        no_interactive: false,
        full: false,
    }
}

#[test]
fn config_parses_supported_options() {
    let args = config_args(ConfigFlags {
        hooks_dir: Some(".custom".to_string()),
        hooks: true,
        no_hooks: false,
        agent: false,
        no_agent: true,
    });
    assert_eq!(args.hooks_dir.as_deref(), Some(".custom"));
    assert_eq!(args.hooks, Some(true));
    assert_eq!(args.agent, Some(false));
}

#[test]
fn positive_and_negative_options_use_the_last_value() {
    // `--no-hooks --hooks --agent --no-agent`: the last of each pair is set.
    let args = config_args(ConfigFlags {
        hooks_dir: None,
        hooks: true,
        no_hooks: false,
        agent: false,
        no_agent: true,
    });
    assert_eq!(args.hooks, Some(true));
    assert_eq!(args.agent, Some(false));
}

#[test]
fn parses_each_subcommand() {
    for (command, name) in [
        (HooksCommand::Enable, "enable"),
        (HooksCommand::Disable, "disable"),
        (HooksCommand::Status, "status"),
    ] {
        let args = hooks_args(command, Some(".custom".to_string()));
        assert_eq!(args.command, name);
        assert_eq!(args.hooks_dir.as_deref(), Some(".custom"));
    }
}

#[test]
fn create_applies_repetition_rules() {
    // `--agent first --no-agent --agent last --editor first --editor last
    //  --no-git --git --hooks --no-hooks --no-interactive --interactive`
    let args = create_args(CreateFlags {
        agent: strings(&["last"]),
        editor: strings(&["first", "last"]),
        git: true,
        no_hooks: true,
        interactive: true,
        ..no_create_flags()
    });
    assert!(matches!(args.agent, Some(AgentOption::One(ref value)) if value == "last"));
    assert!(matches!(args.editor, Some(EditorOption::Name(ref value)) if value == "last"));
    assert_eq!(args.git, Some(true));
    assert_eq!(args.hooks, Some(false));
    assert_eq!(args.interactive, Some(true));
}

#[test]
fn parses_other_supported_options() {
    let args = create_args(CreateFlags {
        directory: Some("project".to_string()),
        no_agent: true,
        no_editor: true,
        approve_builds: true,
        verbose: true,
        list: true,
        ..no_create_flags()
    });
    assert_eq!(args.directory.as_deref(), Some("project"));
    assert!(matches!(args.agent, Some(AgentOption::Off)));
    assert!(matches!(args.editor, Some(EditorOption::Off)));
    assert_eq!(args.approve_builds, Some(true));
    assert_eq!(args.verbose, Some(true));
    assert_eq!(args.list, Some(true));
}

#[test]
fn parses_only_supported_package_managers() {
    let manager = parse_package_manager_value("pnpm").unwrap();
    let args = create_args(CreateFlags { package_manager: Some(manager), ..no_create_flags() });
    assert_eq!(args.package_manager.as_deref(), Some("pnpm"));
    assert_eq!(parse_package_manager_value("deno").unwrap_err(), "use pnpm, npm, yarn, or bun");
}

#[test]
fn create_keeps_template_and_its_arguments() {
    let args = create_args(CreateFlags {
        template: Some("vite".to_string()),
        template_args: strings(&["--template", "react-ts", "--", "-x"]),
        ..no_create_flags()
    });
    assert_eq!(args.template_name.as_deref(), Some("vite"));
    assert_eq!(args.template_args, ["--template", "react-ts", "--", "-x"]);
    assert!(args.agent.is_none());
    assert!(args.editor.is_none());
    assert_eq!(args.git, None);
    assert_eq!(args.package_manager, None);
}

#[test]
fn parses_path_and_setup_options() {
    let args = migrate_args(MigrateFlags {
        path: Some("project".to_string()),
        agent: strings(&["alpha", "beta"]),
        editor: strings(&["vscode"]),
        hooks: true,
        no_interactive: true,
        full: true,
        ..no_migrate_flags()
    });
    assert_eq!(args.path.as_deref(), Some("project"));
    assert!(matches!(args.agent, Some(AgentOption::Many(ref values)) if values == &["alpha", "beta"]));
    assert!(matches!(args.editor, Some(EditorOption::Name(ref value)) if value == "vscode"));
    assert_eq!(args.hooks, Some(true));
    assert_eq!(args.interactive, Some(false));
    assert_eq!(args.full, Some(true));
}

#[test]
fn migrate_applies_repetition_rules() {
    let args = migrate_args(MigrateFlags {
        agent: strings(&["last"]),
        editor: strings(&["first", "last"]),
        hooks: true,
        no_interactive: true,
        ..no_migrate_flags()
    });
    assert!(matches!(args.agent, Some(AgentOption::One(ref value)) if value == "last"));
    assert!(matches!(args.editor, Some(EditorOption::Name(ref value)) if value == "last"));
    assert_eq!(args.hooks, Some(true));
    assert_eq!(args.interactive, Some(false));
    assert_eq!(args.full, None);
}

#[test]
fn parses_concurrent_forms() {
    assert_eq!(parse_concurrent("true"), Ok(Concurrent::Enabled));
    assert_eq!(parse_concurrent("false"), Ok(Concurrent::Disabled));
    assert_eq!(parse_concurrent("1"), Ok(Concurrent::Limit(1)));
    assert_eq!(parse_concurrent("2"), Ok(Concurrent::Limit(2)));
    assert_eq!(parse_concurrent("+7"), Ok(Concurrent::Limit(7)));
    assert_eq!(parse_concurrent("4294967295"), Ok(Concurrent::Limit(u32::MAX)));
}

#[test]
fn rejects_invalid_concurrent_values() {
    for value in ["0", "-1", "1.5", "NaN", "4294967296", "", "TRUE"] {
        let message = parse_concurrent(value).unwrap_err();
        assert_eq!(message, CONCURRENT_VALUE_ERROR);
        let error = parse_error(CliErrorKind::ValueValidation, message);
        assert_eq!(error.kind, "invalid-value");
        assert!(error.message.contains(CONCURRENT_VALUE_ERROR));
    }
}

#[test]
fn maps_explicit_values_for_javascript() {
    let args = staged_args(StagedFlags {
        concurrent: Some(Concurrent::Limit(3)),
        no_stash: true,
        debug: true,
        ..no_staged_flags()
    });
    assert_eq!(args.concurrent, Some(ConcurrentValue::Limit(3)));
    assert_eq!(args.stash, Some(false));
    assert_eq!(args.debug, Some(true));
    assert_eq!(args.quiet, None);
}

#[test]
fn no_concurrent_turns_concurrency_off() {
    let args = staged_args(StagedFlags { no_concurrent: true, ..no_staged_flags() });
    assert_eq!(args.concurrent, Some(ConcurrentValue::Flag(false)));
    let args = staged_args(StagedFlags { concurrent: Some(Concurrent::Enabled), ..no_staged_flags() });
    assert_eq!(args.concurrent, Some(ConcurrentValue::Flag(true)));
    let args = staged_args(no_staged_flags());
    assert_eq!(args.concurrent, None);
    assert_eq!(args.stash, None);
}

#[test]
fn staged_passes_given_options_on() {
    let args = staged_args(StagedFlags {
        allow_empty: true,
        continue_on_error: true,
        cwd: Some("packages/app".to_string()),
        diff: Some("main...HEAD".to_string()),
        diff_filter: Some("ACMR".to_string()),
        fail_on_changes: true,
        hide_partially_staged: true,
        hide_unstaged: true,
        quiet: true,
        relative: true,
        revert: true,
        verbose: true,
        ..no_staged_flags()
    });
    assert_eq!(args.allow_empty, Some(true));
    assert_eq!(args.continue_on_error, Some(true));
    assert_eq!(args.cwd.as_deref(), Some("packages/app"));
    assert_eq!(args.diff.as_deref(), Some("main...HEAD"));
    assert_eq!(args.diff_filter.as_deref(), Some("ACMR"));
    assert_eq!(args.fail_on_changes, Some(true));
    assert_eq!(args.hide_partially_staged, Some(true));
    assert_eq!(args.hide_unstaged, Some(true));
    assert_eq!(args.quiet, Some(true));
    assert_eq!(args.relative, Some(true));
    assert_eq!(args.revert, Some(true));
    assert_eq!(args.verbose, Some(true));
    assert_eq!(args.debug, None);
}

#[test]
fn help_exits_with_status_zero() {
    assert!(matches!(config_outcome(ParseResult::Help), ParseConfigArgsOutcome::Exit { code: 0 }));
    assert!(matches!(hooks_outcome(ParseResult::Help), ParseHooksArgsOutcome::Exit { code: 0 }));
    assert!(matches!(staged_outcome(ParseResult::Help), ParseStagedArgsOutcome::Exit { code: 0 }));
}

#[test]
fn errors_are_passed_through() {
    let error = parse_error(CliErrorKind::ArgumentConflict, "the argument cannot be used twice \n\n");
    assert_eq!(error.kind, "argument-conflict");
    assert_eq!(error.message, "the argument cannot be used twice");
    match hooks_outcome(ParseResult::Error(error)) {
        ParseHooksArgsOutcome::Error { error } => assert_eq!(error.kind, "argument-conflict"),
        _ => panic!("expected an error"),
    }
}

#[test]
fn parsed_outcomes_carry_the_arguments() {
    match hooks_outcome(ParseResult::Args((HooksCommand::Status, None))) {
        ParseHooksArgsOutcome::Parsed { value } => {
            assert_eq!(value.command, "status");
            assert_eq!(value.hooks_dir, None);
        }
        _ => panic!("expected arguments"),
    }
    match config_outcome(ParseResult::Args(ConfigFlags {
        hooks_dir: None,
        hooks: false,
        no_hooks: false,
        agent: true,
        no_agent: false,
    })) {
        ParseConfigArgsOutcome::Parsed { value } => {
            assert_eq!(value.hooks, None);
            assert_eq!(value.agent, Some(true));
        }
        _ => panic!("expected arguments"),
    }
}

#[test]
fn error_kinds_have_stable_names() {
    assert_eq!(error_kind_name(CliErrorKind::InvalidValue), "invalid-value");
    assert_eq!(error_kind_name(CliErrorKind::WrongNumberOfValues), "invalid-value");
    assert_eq!(error_kind_name(CliErrorKind::InvalidSubcommand), "unknown-argument");
    assert_eq!(error_kind_name(CliErrorKind::MissingSubcommand), "missing-argument");
    assert_eq!(error_kind_name(CliErrorKind::Other), "invalid-arguments");
}

#[test]
fn option_pairs_follow_their_rules() {
    assert_eq!(boolean_option(true, true), Some(false));
    assert_eq!(boolean_option(true, false), Some(true));
    assert_eq!(boolean_option(false, false), None);
    assert!(matches!(agent_option(strings(&["a"]), true), Some(AgentOption::Off)));
    assert!(agent_option(Vec::new(), false).is_none());
    assert!(matches!(editor_option(strings(&["a", "b"]), false), Some(EditorOption::Name(ref n)) if n == "b"));
    assert!(editor_option(Vec::new(), false).is_none());
}
